//! The mathematical model of the cache: what it holds, and what every operation makes of it.

use vstd::prelude::*;

use crate::arith;
use crate::config::Precision;
use crate::fold;
use crate::stats_utils;
use crate::value::ValueView;

verus! {

/// The later of two timestamps.
pub open spec fn later(a: i64, b: i64) -> i64 {
    if a < b {
        b
    } else {
        a
    }
}

/// The earlier of two timestamps.
pub open spec fn earlier(a: i64, b: i64) -> i64 {
    if a < b {
        a
    } else {
        b
    }
}

// ---------------------------------------------------------------- fields

/// Why a value that arrives is sent on, or that it is not.
#[derive(Debug, Clone, Copy, PartialEq, Eq, Structural)]
pub enum Sending {
    /// The field was not known.
    Initial,
    /// The value differs from the last one.
    Changed,
    /// The value is the same, and was last sent at least a minute before.
    Timeout,
    /// The value is the same, and is held back.
    Suppressed,
}

/// The model of a field of a uid.
pub struct FieldView {
    pub name: Seq<char>,
    pub measurement: Seq<char>,
    pub value: ValueView,
    pub first_seen_ts: i64,
    pub last_seen_ts: i64,
    pub last_changed_ts: i64,
    pub last_sent_ts: i64,
    pub last_5_ts: Seq<i64>,
    pub seen_count: nat,
    pub changed_count: nat,
}

impl FieldView {
    /// The field as it stands after its first value.
    pub open spec fn fresh(
        name: Seq<char>,
        measurement: Seq<char>,
        value: ValueView,
        timestamp: i64,
    ) -> FieldView {
        FieldView {
            name,
            measurement,
            value,
            first_seen_ts: timestamp,
            last_seen_ts: timestamp,
            last_changed_ts: timestamp,
            last_sent_ts: timestamp,
            last_5_ts: seq![timestamp],
            seen_count: 1,
            changed_count: 0,
        }
    }

    /// The field goes by this name and measurement.
    pub open spec fn is(self, name: Seq<char>, measurement: Seq<char>) -> bool {
        self.name == name && self.measurement == measurement
    }

    /// What becomes of a value that arrives for this field.
    pub open spec fn sending(self, value: ValueView, timestamp: i64) -> Sending {
        if !self.value.same(value) {
            Sending::Changed
        } else if timestamp >= self.last_sent_ts + 60 {
            Sending::Timeout
        } else {
            Sending::Suppressed
        }
    }

    /// The field after one more value.
    pub open spec fn updated(self, value: ValueView, timestamp: i64) -> FieldView {
        let sending = self.sending(value, timestamp);
        FieldView {
            name: self.name,
            measurement: self.measurement,
            value,
            first_seen_ts: self.first_seen_ts,
            last_seen_ts: later(self.last_seen_ts, timestamp),
            last_changed_ts: if sending is Changed {
                timestamp
            } else {
                self.last_changed_ts
            },
            last_sent_ts: if sending is Suppressed {
                self.last_sent_ts
            } else {
                timestamp
            },
            last_5_ts: stats_utils::recent(self.last_5_ts.push(timestamp)),
            seen_count: self.seen_count + 1,
            changed_count: if sending is Changed {
                self.changed_count + 1
            } else {
                self.changed_count
            },
        }
    }

    /// The estimated time between two values; -1 where only one was seen.
    pub open spec fn frequency(self) -> int {
        if self.seen_count < 2 {
            -1
        } else {
            arith::quotient(self.last_seen_ts - self.first_seen_ts, self.seen_count - 1)
        }
    }

    /// At `now` the field has been silent for over its estimated frequency and `added` seconds.
    /// A field that was seen once has no frequency and is never inactive.
    pub open spec fn inactive(self, added: int, now: int) -> bool {
        self.seen_count > 1 && self.last_seen_ts < now - self.frequency() - added
    }

    /// What holds of every field that a cache holds.
    pub open spec fn valid(self) -> bool {
        &&& self.first_seen_ts <= self.last_seen_ts
        &&& self.changed_count < self.seen_count
        &&& self.last_5_ts.len() == if self.seen_count < 5 {
            self.seen_count
        } else {
            5
        }
    }
}

/// A name and a value, as a line brings them.
pub type ItemView = (Seq<char>, ValueView);

/// Some field goes by this name and measurement.
pub open spec fn known_field(
    fields: Seq<FieldView>,
    name: Seq<char>,
    measurement: Seq<char>,
) -> bool {
    exists|i: int| 0 <= i < fields.len() && (#[trigger] fields[i]).is(name, measurement)
}

/// Where the field of this name and measurement stands.
pub open spec fn field_place(
    fields: Seq<FieldView>,
    name: Seq<char>,
    measurement: Seq<char>,
) -> int {
    choose|i: int| 0 <= i < fields.len() && (#[trigger] fields[i]).is(name, measurement)
}

/// No two fields go by the same name and measurement.
pub open spec fn distinct_fields(fields: Seq<FieldView>) -> bool {
    forall|i: int, j: int|
        0 <= i < fields.len() && 0 <= j < fields.len() && (#[trigger] fields[i]).is(
            (#[trigger] fields[j]).name,
            fields[j].measurement,
        ) ==> i == j
}

/// The fields after one more value: the field it belongs to is updated, or added at the end.
pub open spec fn with_value(
    fields: Seq<FieldView>,
    item: ItemView,
    measurement: Seq<char>,
    timestamp: i64,
) -> Seq<FieldView> {
    if known_field(fields, item.0, measurement) {
        let i = field_place(fields, item.0, measurement);
        fields.update(i, fields[i].updated(item.1, timestamp))
    } else {
        fields.push(FieldView::fresh(item.0, measurement, item.1, timestamp))
    }
}

/// What becomes of a value that arrives for these fields.
pub open spec fn sending_of(
    fields: Seq<FieldView>,
    item: ItemView,
    measurement: Seq<char>,
    timestamp: i64,
) -> Sending {
    if known_field(fields, item.0, measurement) {
        fields[field_place(fields, item.0, measurement)].sending(item.1, timestamp)
    } else {
        Sending::Initial
    }
}

/// The fields after all values of a line, one behind the other.
pub open spec fn with_values(
    fields: Seq<FieldView>,
    set: Seq<ItemView>,
    measurement: Seq<char>,
    timestamp: i64,
) -> Seq<FieldView>
    decreases set.len(),
{
    if set.len() == 0 {
        fields
    } else {
        with_value(
            with_values(fields, set.drop_last(), measurement, timestamp),
            set.last(),
            measurement,
            timestamp,
        )
    }
}

/// How many values of a line were `sending`.
pub open spec fn sendings(
    fields: Seq<FieldView>,
    set: Seq<ItemView>,
    measurement: Seq<char>,
    timestamp: i64,
    sending: Sending,
) -> nat
    decreases set.len(),
{
    if set.len() == 0 {
        0
    } else {
        let before = with_values(fields, set.drop_last(), measurement, timestamp);
        sendings(fields, set.drop_last(), measurement, timestamp, sending) + if sending_of(
            before,
            set.last(),
            measurement,
            timestamp,
        ) == sending {
            1nat
        } else {
            0nat
        }
    }
}

/// The fields of a uid after its first line. Of a name that the line repeats the last value
/// stands, as if it were the first.
pub open spec fn first_values(
    set: Seq<ItemView>,
    measurement: Seq<char>,
    timestamp: i64,
) -> Seq<FieldView>
    decreases set.len(),
{
    if set.len() == 0 {
        Seq::empty()
    } else {
        let before = first_values(set.drop_last(), measurement, timestamp);
        let field = FieldView::fresh(set.last().0, measurement, set.last().1, timestamp);
        if known_field(before, set.last().0, measurement) {
            before.update(field_place(before, set.last().0, measurement), field)
        } else {
            before.push(field)
        }
    }
}

// ---------------------------------------------------------------- uids

/// The model of a uid.
pub struct UidView {
    pub uid: Seq<char>,
    pub first_seen_ts: i64,
    pub last_seen_ts: i64,
    pub seen_count: nat,
    pub equipment_tag: Option<Seq<char>>,
    pub fields: Seq<FieldView>,
}

impl UidView {
    /// The uid after its first line.
    pub open spec fn fresh(
        uid: Seq<char>,
        equipment_tag: Option<Seq<char>>,
        set: Seq<ItemView>,
        timestamp: i64,
        measurement: Seq<char>,
    ) -> UidView {
        UidView {
            uid,
            first_seen_ts: timestamp,
            last_seen_ts: timestamp,
            seen_count: 1,
            equipment_tag,
            fields: first_values(set, measurement, timestamp),
        }
    }

    /// The uid after one more line. Its equipment tag stays as the first line gave it.
    pub open spec fn updated(
        self,
        set: Seq<ItemView>,
        timestamp: i64,
        measurement: Seq<char>,
    ) -> UidView {
        UidView {
            uid: self.uid,
            first_seen_ts: self.first_seen_ts,
            last_seen_ts: later(self.last_seen_ts, timestamp),
            seen_count: self.seen_count + 1,
            equipment_tag: self.equipment_tag,
            fields: with_values(self.fields, set, measurement, timestamp),
        }
    }

    /// All fields of the uid are inactive.
    pub open spec fn inactive(self, added: int, now: int) -> bool {
        forall|i: int| 0 <= i < self.fields.len() ==> (#[trigger] self.fields[i]).inactive(
            added,
            now,
        )
    }

    /// The uid without its inactive fields.
    pub open spec fn pruned(self, added: int, now: int) -> UidView {
        UidView {
            uid: self.uid,
            first_seen_ts: self.first_seen_ts,
            last_seen_ts: self.last_seen_ts,
            seen_count: self.seen_count,
            equipment_tag: self.equipment_tag,
            fields: self.fields.filter(active_field(added, now)),
        }
    }

    /// The equipment tag, or `unknown`.
    pub open spec fn tag_text(self) -> Seq<char> {
        match self.equipment_tag {
            Some(tag) => tag,
            None => "unknown"@,
        }
    }

    /// What holds of every uid that a cache holds.
    pub open spec fn valid(self) -> bool {
        &&& self.first_seen_ts <= self.last_seen_ts
        &&& self.seen_count >= 1
        &&& distinct_fields(self.fields)
        &&& forall|i: int|
            0 <= i < self.fields.len() ==> (#[trigger] self.fields[i]).valid()
                && self.fields[i].last_seen_ts <= self.last_seen_ts
    }
}

/// The fields that are inactive.
pub open spec fn inactive_field(added: int, now: int) -> spec_fn(FieldView) -> bool {
    |f: FieldView| f.inactive(added, now)
}

/// The fields that are not inactive.
pub open spec fn active_field(added: int, now: int) -> spec_fn(FieldView) -> bool {
    |f: FieldView| !f.inactive(added, now)
}

/// The uids that are inactive.
pub open spec fn inactive_uid(added: int, now: int) -> spec_fn(UidView) -> bool {
    |u: UidView| u.inactive(added, now)
}

/// The uids whose last value is over `added` seconds old, whatever their frequency.
pub open spec fn silent_uid(added: int, now: int) -> spec_fn(UidView) -> bool {
    |u: UidView| u.last_seen_ts < now - added
}

/// The uids that are not inactive.
pub open spec fn active_uid(added: int, now: int) -> spec_fn(UidView) -> bool {
    |u: UidView| !u.inactive(added, now)
}

/// The uids without their inactive fields.
pub open spec fn pruned_uid(added: int, now: int) -> spec_fn(UidView) -> UidView {
    |u: UidView| u.pruned(added, now)
}

/// The number of fields of a uid.
pub open spec fn field_number() -> spec_fn(UidView) -> int {
    |u: UidView| u.fields.len() as int
}

/// The fields that were seen at `oldest` or after it.
pub open spec fn field_seen_since(oldest: int) -> spec_fn(FieldView) -> bool {
    |f: FieldView| f.last_seen_ts >= oldest
}

/// The fields that changed at `oldest` or after it.
pub open spec fn field_changed_since(oldest: int) -> spec_fn(FieldView) -> bool {
    |f: FieldView| f.last_changed_ts >= oldest
}

/// The uids that were seen at `oldest` or after it.
pub open spec fn uid_seen_since(oldest: int) -> spec_fn(UidView) -> bool {
    |u: UidView| u.last_seen_ts >= oldest
}

/// The number of fields of a uid that is inactive; 0 for another uid.
pub open spec fn fields_of_inactive(added: int, now: int) -> spec_fn(UidView) -> int {
    |u: UidView|
        if u.inactive(added, now) {
            u.fields.len() as int
        } else {
            0
        }
}

/// The number of fields of a uid that satisfy `p`, where the uid itself satisfies `q`.
pub open spec fn fields_where(
    q: spec_fn(UidView) -> bool,
    p: spec_fn(FieldView) -> bool,
) -> spec_fn(UidView) -> int {
    |u: UidView|
        if q(u) {
            fold::count(u.fields, p) as int
        } else {
            0
        }
}

/// Every uid.
pub open spec fn any_uid() -> spec_fn(UidView) -> bool {
    |u: UidView| true
}

/// The uids that were seen more than once.
pub open spec fn repeated_uid() -> spec_fn(UidView) -> bool {
    |u: UidView| u.seen_count > 1
}

/// The names of the fields of a uid.
pub open spec fn names_of() -> spec_fn(UidView) -> Seq<Seq<char>> {
    |u: UidView| u.fields.map_values(|f: FieldView| f.name)
}

/// How long ago a uid was last seen.
pub open spec fn age_at(now: int) -> spec_fn(UidView) -> int {
    |u: UidView| now - u.last_seen_ts
}

/// The least age of the uids, of which there is at least one.
pub open spec fn least_age(uids: Seq<UidView>, now: int) -> int
    decreases uids.len(),
{
    if uids.len() <= 1 {
        now - uids[0].last_seen_ts
    } else {
        let least = least_age(uids.drop_last(), now);
        let age = now - uids.last().last_seen_ts;
        if age < least {
            age
        } else {
            least
        }
    }
}

/// The greatest age of the uids; 0 where none is greater.
pub open spec fn greatest_age(uids: Seq<UidView>, now: int) -> int
    decreases uids.len(),
{
    if uids.len() == 0 {
        0
    } else {
        let greatest = greatest_age(uids.drop_last(), now);
        let age = now - uids.last().last_seen_ts;
        if age > greatest {
            age
        } else {
            greatest
        }
    }
}

/// The model of the ages of the uids.
pub struct AgesView {
    pub min: int,
    pub max: int,
    pub average: int,
}

// ---------------------------------------------------------------- the cache

/// The model of the cache. The uids, and the fields of each, stand in the order in which they
/// were first seen.
pub struct CacheView {
    pub output_measurement: Seq<char>,
    pub precision: Precision,
    pub created_timestamp: i64,
    pub first_value_ts: i64,
    pub last_value_ts: i64,
    pub minimum_inactivity_seconds: u64,
    pub kafka_message_count: nat,
    pub ilp_line_count: nat,
    pub fields_seen_count: nat,
    pub fields_changed_count: nat,
    pub fields_sent_changed_count: nat,
    pub fields_sent_timeout_count: nat,
    pub fields_sent_initial_count: nat,
    pub fields_sent_suppressed_count: nat,
    pub uids: Seq<UidView>,
}

/// Some uid goes by this name.
pub open spec fn known_uid(uids: Seq<UidView>, uid: Seq<char>) -> bool {
    exists|i: int| 0 <= i < uids.len() && (#[trigger] uids[i]).uid == uid
}

/// Where the uid of this name stands.
pub open spec fn uid_place(uids: Seq<UidView>, uid: Seq<char>) -> int {
    choose|i: int| 0 <= i < uids.len() && (#[trigger] uids[i]).uid == uid
}

/// No two uids go by the same name.
pub open spec fn distinct_uids(uids: Seq<UidView>) -> bool {
    forall|i: int, j: int|
        0 <= i < uids.len() && 0 <= j < uids.len() && (#[trigger] uids[i]).uid == (
        #[trigger] uids[j]).uid ==> i == j
}

impl CacheView {
    /// A cache that has seen nothing.
    pub open spec fn empty(
        output_measurement: Seq<char>,
        inactivity_threshold: u64,
        precision: Precision,
        now: i64,
    ) -> CacheView {
        CacheView {
            output_measurement,
            precision,
            created_timestamp: now,
            first_value_ts: i64::MAX,
            last_value_ts: i64::MIN,
            minimum_inactivity_seconds: inactivity_threshold,
            kafka_message_count: 0,
            ilp_line_count: 0,
            fields_seen_count: 0,
            fields_changed_count: 0,
            fields_sent_changed_count: 0,
            fields_sent_timeout_count: 0,
            fields_sent_initial_count: 0,
            fields_sent_suppressed_count: 0,
            uids: Seq::empty(),
        }
    }

    /// How many values of a line for `uid` are `sending`. All values of the first line of a uid
    /// are initial ones.
    pub open spec fn sent(
        self,
        uid: Seq<char>,
        set: Seq<ItemView>,
        timestamp: i64,
        measurement: Seq<char>,
        sending: Sending,
    ) -> nat {
        if known_uid(self.uids, uid) {
            sendings(
                self.uids[uid_place(self.uids, uid)].fields,
                set,
                measurement,
                timestamp,
                sending,
            )
        } else if sending is Initial {
            set.len()
        } else {
            0
        }
    }

    /// The cache after one line: the uid it belongs to is updated, or added at the end.
    pub open spec fn recorded(
        self,
        uid: Seq<char>,
        equipment_tag: Option<Seq<char>>,
        set: Seq<ItemView>,
        timestamp: i64,
        measurement: Seq<char>,
    ) -> CacheView {
        let changed = self.sent(uid, set, timestamp, measurement, Sending::Changed);
        CacheView {
            output_measurement: self.output_measurement,
            precision: self.precision,
            created_timestamp: self.created_timestamp,
            first_value_ts: earlier(self.first_value_ts, timestamp),
            last_value_ts: later(self.last_value_ts, timestamp),
            minimum_inactivity_seconds: self.minimum_inactivity_seconds,
            kafka_message_count: self.kafka_message_count,
            ilp_line_count: self.ilp_line_count,
            fields_seen_count: self.fields_seen_count + set.len(),
            fields_changed_count: self.fields_changed_count + changed,
            fields_sent_changed_count: self.fields_sent_changed_count + changed,
            fields_sent_timeout_count: self.fields_sent_timeout_count + self.sent(
                uid,
                set,
                timestamp,
                measurement,
                Sending::Timeout,
            ),
            fields_sent_initial_count: self.fields_sent_initial_count + self.sent(
                uid,
                set,
                timestamp,
                measurement,
                Sending::Initial,
            ),
            fields_sent_suppressed_count: self.fields_sent_suppressed_count + self.sent(
                uid,
                set,
                timestamp,
                measurement,
                Sending::Suppressed,
            ),
            uids: if known_uid(self.uids, uid) {
                let i = uid_place(self.uids, uid);
                self.uids.update(i, self.uids[i].updated(set, timestamp, measurement))
            } else {
                self.uids.push(UidView::fresh(uid, equipment_tag, set, timestamp, measurement))
            },
        }
    }

    /// The cache with other uids.
    pub open spec fn with_uids(self, uids: Seq<UidView>) -> CacheView {
        CacheView {
            output_measurement: self.output_measurement,
            precision: self.precision,
            created_timestamp: self.created_timestamp,
            first_value_ts: self.first_value_ts,
            last_value_ts: self.last_value_ts,
            minimum_inactivity_seconds: self.minimum_inactivity_seconds,
            kafka_message_count: self.kafka_message_count,
            ilp_line_count: self.ilp_line_count,
            fields_seen_count: self.fields_seen_count,
            fields_changed_count: self.fields_changed_count,
            fields_sent_changed_count: self.fields_sent_changed_count,
            fields_sent_timeout_count: self.fields_sent_timeout_count,
            fields_sent_initial_count: self.fields_sent_initial_count,
            fields_sent_suppressed_count: self.fields_sent_suppressed_count,
            uids,
        }
    }

    /// The cache with other counts of messages and lines.
    pub open spec fn with_counts(self, messages: nat, lines: nat) -> CacheView {
        CacheView {
            output_measurement: self.output_measurement,
            precision: self.precision,
            created_timestamp: self.created_timestamp,
            first_value_ts: self.first_value_ts,
            last_value_ts: self.last_value_ts,
            minimum_inactivity_seconds: self.minimum_inactivity_seconds,
            kafka_message_count: messages,
            ilp_line_count: lines,
            fields_seen_count: self.fields_seen_count,
            fields_changed_count: self.fields_changed_count,
            fields_sent_changed_count: self.fields_sent_changed_count,
            fields_sent_timeout_count: self.fields_sent_timeout_count,
            fields_sent_initial_count: self.fields_sent_initial_count,
            fields_sent_suppressed_count: self.fields_sent_suppressed_count,
            uids: self.uids,
        }
    }

    /// The cache without its inactive uids, and without the inactive fields of the others.
    pub open spec fn pruned(self, added: int, now: int) -> CacheView {
        self.with_uids(
            self.uids.filter(active_uid(added, now)).map_values(pruned_uid(added, now)),
        )
    }

    /// The seconds that a silence must exceed: those given, or the cache's own.
    pub open spec fn added(self, seconds: Option<u64>) -> int {
        match seconds {
            Some(s) => s as int,
            None => self.minimum_inactivity_seconds as int,
        }
    }

    /// How many uids were seen in the last `seconds` seconds.
    pub open spec fn uids_seen(self, seconds: int, now: int) -> nat {
        fold::count(self.uids, uid_seen_since(now - seconds))
    }

    /// How many fields were seen in the last `seconds` seconds, of uids that were.
    pub open spec fn fields_seen(self, seconds: int, now: int) -> int {
        fold::total(
            self.uids,
            fields_where(uid_seen_since(now - seconds), field_seen_since(now - seconds)),
        )
    }

    /// How many fields changed in the last `seconds` seconds.
    pub open spec fn fields_changed(self, seconds: int, now: int) -> int {
        fold::total(self.uids, fields_where(any_uid(), field_changed_since(now - seconds)))
    }

    /// How many uids had their last value over `added` seconds ago.
    pub open spec fn uids_silent(self, added: int, now: int) -> nat {
        fold::count(self.uids, silent_uid(added, now))
    }

    /// How many uids are inactive.
    pub open spec fn uids_inactive(self, added: int, now: int) -> nat {
        fold::count(self.uids, inactive_uid(added, now))
    }

    /// How many fields are inactive, of uids that were seen more than once.
    pub open spec fn fields_inactive(self, added: int, now: int) -> int {
        fold::total(self.uids, fields_where(repeated_uid(), inactive_field(added, now)))
    }

    /// How many fields belong to inactive uids.
    pub open spec fn fields_of_inactive_uids(self, added: int, now: int) -> int {
        fold::total(self.uids, fields_of_inactive(added, now))
    }

    /// How many fields are inactive, of uids that are not.
    pub open spec fn inactive_fields_of_active_uids(self, added: int, now: int) -> int {
        fold::total(self.uids, fields_where(active_uid(added, now), inactive_field(added, now)))
    }

    /// The names of all fields of all uids.
    pub open spec fn field_names(self) -> Seq<Seq<char>> {
        fold::concat(self.uids, names_of())
    }

    /// The ages of the uids: all 0 where there is none.
    pub open spec fn ages(self, now: int) -> AgesView {
        if self.uids.len() == 0 {
            AgesView { min: 0, max: 0, average: 0 }
        } else {
            AgesView {
                min: least_age(self.uids, now),
                max: greatest_age(self.uids, now),
                average: arith::quotient(
                    fold::total(self.uids, age_at(now)),
                    self.uids.len() as int,
                ),
            }
        }
    }

    /// The number of fields of all uids.
    pub open spec fn field_total(self) -> int {
        fold::total(self.uids, field_number())
    }

    /// The counters have room for a line of `n` values for `uid`.
    pub open spec fn room(self, uid: Seq<char>, n: nat) -> bool {
        &&& self.fields_seen_count + n <= usize::MAX
        &&& known_uid(self.uids, uid) ==> self.uids[uid_place(self.uids, uid)].seen_count
            < usize::MAX
    }

    /// What holds of every cache.
    pub open spec fn valid(self) -> bool {
        &&& distinct_uids(self.uids)
        &&& forall|i: int|
            0 <= i < self.uids.len() ==> (#[trigger] self.uids[i]).valid() && self.first_value_ts
                <= self.uids[i].first_seen_ts && self.uids[i].last_seen_ts <= self.last_value_ts
        &&& forall|i: int, k: int|
            0 <= i < self.uids.len() && 0 <= k < self.uids[i].fields.len() ==> (
            #[trigger] self.uids[i].fields[k]).seen_count <= self.fields_seen_count
                && self.first_value_ts <= self.uids[i].fields[k].first_seen_ts
        &&& self.fields_seen_count == self.fields_sent_initial_count
            + self.fields_sent_changed_count + self.fields_sent_timeout_count
            + self.fields_sent_suppressed_count
        &&& self.fields_changed_count == self.fields_sent_changed_count
        &&& self.field_total() <= self.fields_seen_count
        &&& {
            ||| self.first_value_ts <= self.last_value_ts
            ||| self.first_value_ts == i64::MAX && self.last_value_ts == i64::MIN
                && self.fields_seen_count == 0 && self.uids.len() == 0
        }
    }
}

} // verus!
