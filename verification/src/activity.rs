//! Counts and ages: what was seen, what changed, and what has fallen silent.

use vstd::hash_set::StringHashSet;
use vstd::prelude::*;

use crate::arith;
use crate::cache;
use crate::cache::{FieldInfo, UidInfo, ValueCache};
use crate::fold;
use crate::model;
use crate::model::AgesView;
use crate::stats_utils::curtime;

verus! {

// ---------------------------------------------------------------- inactivity

impl FieldInfo {
    /// The estimated time between two values; -1 where only one was seen.
    pub fn estimated_frequency(&self) -> (r: i128)
        ensures
            r == self@.frequency(),
            -0x1_0000_0000_0000_0000 < r < 0x1_0000_0000_0000_0000,
    {
        if self.seen_count < 2 {
            return -1;
        }
        let span: i128 = self.last_seen_ts as i128 - self.first_seen_ts as i128;
        let intervals: i128 = self.seen_count as i128 - 1;
        let r: i128 = arith::divide(span, intervals);
        assert(-0x1_0000_0000_0000_0000 < r < 0x1_0000_0000_0000_0000) by (nonlinear_arith)
            requires
                intervals >= 1,
                -0x1_0000_0000_0000_0000 < span < 0x1_0000_0000_0000_0000,
                r == arith::quotient(span as int, intervals as int),
        ;
        r
    }

    /// Whether at `now` the field has been silent for over its estimated frequency and
    /// `inactivity_added_seconds`.
    pub fn is_inactive_at(&self, inactivity_added_seconds: u64, now: i64) -> (r: bool)
        ensures
            r == self@.inactive(inactivity_added_seconds as int, now as int),
    {
        let threshold: i128 = now as i128 - self.estimated_frequency()
            - inactivity_added_seconds as i128;
        self.seen_count > 1 && (self.last_seen_ts as i128) < threshold
    }

    /// Whether the field is inactive by the clock.
    pub fn is_inactive(&self, inactivity_added_seconds: u64) -> (r: bool)
        ensures
            exists|now: i64| #[trigger]
                self@.inactive(inactivity_added_seconds as int, now as int) == r,
    {
        self.is_inactive_at(inactivity_added_seconds, curtime())
    }
}

impl UidInfo {
    /// Whether at `now` all fields of the uid are inactive.
    pub fn is_inactive_at(&self, inactivity_added_seconds: u64, now: i64) -> (r: bool)
        ensures
            r == self@.inactive(inactivity_added_seconds as int, now as int),
    {
        let ghost fields = self@.fields;
        let mut i: usize = 0;
        while i < self.fields.len()
            invariant
                i <= self.fields@.len(),
                fields == self@.fields,
                forall|k: int|
                    0 <= k < i ==> (#[trigger] fields[k]).inactive(
                        inactivity_added_seconds as int,
                        now as int,
                    ),
            decreases self.fields.len() - i,
        {
            assert(fields[i as int] == self.fields@[i as int]@);
            if !self.fields[i].is_inactive_at(inactivity_added_seconds, now) {
                return false;
            }
            i = i + 1;
        }
        true
    }

    /// Whether all fields of the uid are inactive by the clock.
    pub fn is_inactive(&self, inactivity_added_seconds: u64) -> (r: bool)
        ensures
            exists|now: i64| #[trigger]
                self@.inactive(inactivity_added_seconds as int, now as int) == r,
    {
        self.is_inactive_at(inactivity_added_seconds, curtime())
    }

    fn count_seen_fields(&self, oldest: i128) -> (r: usize)
        ensures
            r == fold::count(self@.fields, model::field_seen_since(oldest as int)),
    {
        let ghost fields = self@.fields;
        let ghost p = model::field_seen_since(oldest as int);
        let mut found: usize = 0;
        let mut i: usize = 0;
        while i < self.fields.len()
            invariant
                found <= i <= self.fields@.len(),
                fields == self@.fields,
                p == model::field_seen_since(oldest as int),
                found == fold::count(fields.take(i as int), p),
            decreases self.fields.len() - i,
        {
            proof {
                fold::lemma_prefix(fields, i as int);
                assert(fields[i as int] == self.fields@[i as int]@);
            }
            if self.fields[i].last_seen_ts as i128 >= oldest {
                found = found + 1;
            }
            i = i + 1;
        }
        assert(fields.take(i as int) =~= fields);
        found
    }

    fn count_changed_fields(&self, oldest: i128) -> (r: usize)
        ensures
            r == fold::count(self@.fields, model::field_changed_since(oldest as int)),
    {
        let ghost fields = self@.fields;
        let ghost p = model::field_changed_since(oldest as int);
        let mut found: usize = 0;
        let mut i: usize = 0;
        while i < self.fields.len()
            invariant
                found <= i <= self.fields@.len(),
                fields == self@.fields,
                p == model::field_changed_since(oldest as int),
                found == fold::count(fields.take(i as int), p),
            decreases self.fields.len() - i,
        {
            proof {
                fold::lemma_prefix(fields, i as int);
                assert(fields[i as int] == self.fields@[i as int]@);
            }
            if self.fields[i].last_changed_ts as i128 >= oldest {
                found = found + 1;
            }
            i = i + 1;
        }
        assert(fields.take(i as int) =~= fields);
        found
    }

    fn count_inactive_fields(&self, inactivity_added_seconds: u64, now: i64) -> (r: usize)
        ensures
            r == fold::count(
                self@.fields,
                model::inactive_field(inactivity_added_seconds as int, now as int),
            ),
    {
        let ghost fields = self@.fields;
        let ghost p = model::inactive_field(inactivity_added_seconds as int, now as int);
        let mut found: usize = 0;
        let mut i: usize = 0;
        while i < self.fields.len()
            invariant
                found <= i <= self.fields@.len(),
                fields == self@.fields,
                p == model::inactive_field(inactivity_added_seconds as int, now as int),
                found == fold::count(fields.take(i as int), p),
            decreases self.fields.len() - i,
        {
            proof {
                fold::lemma_prefix(fields, i as int);
                assert(fields[i as int] == self.fields@[i as int]@);
            }
            if self.fields[i].is_inactive_at(inactivity_added_seconds, now) {
                found = found + 1;
            }
            i = i + 1;
        }
        assert(fields.take(i as int) =~= fields);
        found
    }
}

// ---------------------------------------------------------------- counts of the cache

/// The ages of the uids, in seconds.
#[derive(Debug, Clone, Copy)]
pub struct Ages {
    pub min: i128,
    pub max: i128,
    pub average: i128,
}

impl View for Ages {
    type V = AgesView;

    open spec fn view(&self) -> AgesView {
        AgesView { min: self.min as int, max: self.max as int, average: self.average as int }
    }
}

/// A sum over some of the fields of each uid is at most the number of all fields.
pub proof fn lemma_fields_where_bound(
    uids: Seq<model::UidView>,
    q: spec_fn(model::UidView) -> bool,
    p: spec_fn(model::FieldView) -> bool,
)
    ensures
        0 <= fold::total(uids, model::fields_where(q, p)) <= fold::total(
            uids,
            model::field_number(),
        ),
    decreases uids.len(),
{
    if uids.len() > 0 {
        lemma_fields_where_bound(uids.drop_last(), q, p);
        fold::lemma_count_bound(uids.last().fields, p);
    }
}

proof fn lemma_room_to_count(
    cache: model::CacheView,
    q: spec_fn(model::UidView) -> bool,
    p: spec_fn(model::FieldView) -> bool,
    i: int,
)
    requires
        cache.valid(),
        cache.fields_seen_count <= usize::MAX,
        0 <= i < cache.uids.len(),
    ensures
        0 <= fold::total(cache.uids.take(i), model::fields_where(q, p)),
        fold::total(cache.uids.take(i + 1), model::fields_where(q, p)) == fold::total(
            cache.uids.take(i),
            model::fields_where(q, p),
        ) + model::fields_where(q, p)(cache.uids[i]),
        fold::total(cache.uids.take(i + 1), model::fields_where(q, p)) <= usize::MAX,
{
    let f = model::field_number();
    fold::lemma_prefix(cache.uids, i);
    lemma_fields_where_bound(cache.uids.take(i), q, p);
    lemma_fields_where_bound(cache.uids.take(i + 1), q, p);
    fold::lemma_total_prefix(cache.uids, i + 1, f);
}

/// More than any difference of two timestamps.
const AGE_LIMIT: i128 = 0x1_0000_0000_0000_0000;

/// Divides, rounding down: the quotient, and the remainder from 0 on.
fn divide_down(a: i128, n: i128) -> (r: (i128, i128))
    requires
        n > 0,
        -AGE_LIMIT < a < AGE_LIMIT,
    ensures
        n * r.0 + r.1 == a,
        0 <= r.1 < n,
        -AGE_LIMIT - 1 <= r.0 <= AGE_LIMIT,
{
    let magnitude: i128 = if a < 0 {
        -a
    } else {
        a
    };
    let whole: i128 = magnitude / n;
    let rest: i128 = magnitude % n;
    proof {
        vstd::arithmetic::div_mod::lemma_fundamental_div_mod(magnitude as int, n as int);
        assert(0 <= whole <= magnitude) by (nonlinear_arith)
            requires
                magnitude == n * whole + rest,
                n > 0,
                magnitude >= 0,
                0 <= rest < n,
        ;
    }
    if a >= 0 {
        (whole, rest)
    } else if rest == 0 {
        assert(n * (-whole) == -(n * whole)) by (nonlinear_arith);
        (-whole, 0)
    } else {
        assert(n * (-whole - 1) == -(n * whole) - n) by (nonlinear_arith);
        (-whole - 1, n - rest)
    }
}

proof fn lemma_whole_bound(whole: int, rest: int, n: int, i: int, sum: int)
    by (nonlinear_arith)
    requires
        n * whole + rest == sum,
        0 <= rest < n,
        0 <= i <= n,
        -(i * AGE_LIMIT) <= sum <= i * AGE_LIMIT,
    ensures
        -AGE_LIMIT - 1 <= whole <= AGE_LIMIT,
{
}

proof fn lemma_average(whole: int, rest: int, n: int)
    requires
        n > 0,
        0 <= rest < n,
    ensures
        arith::quotient(n * whole + rest, n) == if whole < 0 && rest > 0 {
            whole + 1
        } else {
            whole
        },
{
    let sum = n * whole + rest;
    if whole >= 0 {
        assert(sum >= 0) by (nonlinear_arith)
            requires
                sum == n * whole + rest,
                whole >= 0,
                n > 0,
                rest >= 0,
        ;
        vstd::arithmetic::div_mod::lemma_fundamental_div_mod_converse(sum, n, whole, rest);
    } else {
        assert(sum < 0) by (nonlinear_arith)
            requires
                sum == n * whole + rest,
                whole < 0,
                rest < n,
                n > 0,
        ;
        if rest == 0 {
            assert(-sum == n * (-whole) + 0) by (nonlinear_arith)
                requires
                    sum == n * whole + rest,
                    rest == 0,
            ;
            vstd::arithmetic::div_mod::lemma_fundamental_div_mod_converse(-sum, n, -whole, 0);
        } else {
            assert(-sum == n * (-whole - 1) + (n - rest)) by (nonlinear_arith)
                requires
                    sum == n * whole + rest,
            ;
            vstd::arithmetic::div_mod::lemma_fundamental_div_mod_converse(
                -sum,
                n,
                -whole - 1,
                n - rest,
            );
        }
    }
}

impl ValueCache {
    /// How many uids were seen in the `seconds` seconds before `now`.
    pub fn uid_count_last_seconds_at(&self, seconds: i64, now: i64) -> (r: usize)
        ensures
            r == self@.uids_seen(seconds as int, now as int),
    {
        let oldest: i128 = now as i128 - seconds as i128;
        let uids: &Vec<UidInfo> = self.uids();
        let ghost all = self@.uids;
        let ghost p = model::uid_seen_since(oldest as int);
        let mut found: usize = 0;
        let mut i: usize = 0;
        while i < uids.len()
            invariant
                found <= i <= uids@.len(),
                all == cache::uid_views(uids@),
                p == model::uid_seen_since(oldest as int),
                found == fold::count(all.take(i as int), p),
            decreases uids.len() - i,
        {
            proof {
                fold::lemma_prefix(all, i as int);
                assert(all[i as int] == uids@[i as int]@);
            }
            if uids[i].last_seen_ts as i128 >= oldest {
                found = found + 1;
            }
            i = i + 1;
        }
        assert(all.take(i as int) =~= all);
        found
    }

    /// How many uids were seen in the last `seconds` seconds by the clock.
    pub fn uid_count_last_seconds(&self, seconds: i64) -> (r: usize)
        ensures
            exists|now: i64| #[trigger] self@.uids_seen(seconds as int, now as int) == r,
    {
        self.uid_count_last_seconds_at(seconds, curtime())
    }

    /// How many uids there are.
    pub fn total_uid_count(&self) -> (r: usize)
        ensures
            r == self@.uids.len(),
    {
        let uids: &Vec<UidInfo> = self.uids();
        assert(cache::uid_views(uids@).len() == uids@.len());
        uids.len()
    }

    /// How many uids had their last value over the given seconds, or the cache's own, before
    /// `now`. The estimated frequencies of the fields are left out of account.
    pub fn inactive_uid_count_at(&self, added_seconds: Option<u64>, now: i64) -> (r: usize)
        ensures
            r == self@.uids_silent(self@.added(added_seconds), now as int),
    {
        let added: u64 = self.added_seconds(added_seconds);
        let oldest: i128 = now as i128 - added as i128;
        let uids: &Vec<UidInfo> = self.uids();
        let ghost all = self@.uids;
        let ghost p = model::silent_uid(added as int, now as int);
        let mut found: usize = 0;
        let mut i: usize = 0;
        while i < uids.len()
            invariant
                found <= i <= uids@.len(),
                oldest == now - added,
                all == cache::uid_views(uids@),
                p == model::silent_uid(added as int, now as int),
                found == fold::count(all.take(i as int), p),
            decreases uids.len() - i,
        {
            proof {
                fold::lemma_prefix(all, i as int);
                assert(all[i as int] == uids@[i as int]@);
            }
            if (uids[i].last_seen_ts as i128) < oldest {
                found = found + 1;
            }
            i = i + 1;
        }
        assert(all.take(i as int) =~= all);
        found
    }

    /// How many uids had their last value over the given seconds, or the cache's own, ago by the
    /// clock.
    pub fn inactive_uid_count(&self, added_seconds: Option<u64>) -> (r: usize)
        ensures
            exists|now: i64| #[trigger]
                self@.uids_silent(self@.added(added_seconds), now as int) == r,
    {
        self.inactive_uid_count_at(added_seconds, curtime())
    }

    /// How many fields were seen in the `seconds` seconds before `now`, of uids that were.
    pub fn field_count_last_seconds_at(&self, seconds: i64, now: i64) -> (r: usize)
        requires
            self.wf(),
        ensures
            r == self@.fields_seen(seconds as int, now as int),
    {
        proof {
            self.lemma_valid();
        }
        let oldest: i128 = now as i128 - seconds as i128;
        let uids: &Vec<UidInfo> = self.uids();
        let ghost all = self@.uids;
        let ghost q = model::uid_seen_since(oldest as int);
        let ghost p = model::field_seen_since(oldest as int);
        let mut found: usize = 0;
        let mut i: usize = 0;
        while i < uids.len()
            invariant
                i <= uids@.len(),
                self@.valid(),
                self@.fields_seen_count <= usize::MAX,
                all == self@.uids,
                all == cache::uid_views(uids@),
                q == model::uid_seen_since(oldest as int),
                p == model::field_seen_since(oldest as int),
                found == fold::total(all.take(i as int), model::fields_where(q, p)),
            decreases uids.len() - i,
        {
            proof {
                lemma_room_to_count(self@, q, p, i as int);
                assert(all[i as int] == uids@[i as int]@);
            }
            if uids[i].last_seen_ts as i128 >= oldest {
                found = found + uids[i].count_seen_fields(oldest);
            }
            i = i + 1;
        }
        assert(all.take(i as int) =~= all);
        found
    }

    /// How many fields were seen in the last `seconds` seconds by the clock, of uids that were.
    pub fn field_count_last_seconds(&self, seconds: i64) -> (r: usize)
        requires
            self.wf(),
        ensures
            exists|now: i64| #[trigger] self@.fields_seen(seconds as int, now as int) == r,
    {
        self.field_count_last_seconds_at(seconds, curtime())
    }

    /// How many fields there are.
    pub fn total_field_count(&self) -> (r: usize)
        requires
            self.wf(),
        ensures
            r == self@.field_total(),
    {
        proof {
            self.lemma_valid();
        }
        let uids: &Vec<UidInfo> = self.uids();
        let ghost all = self@.uids;
        let mut found: usize = 0;
        let mut i: usize = 0;
        while i < uids.len()
            invariant
                i <= uids@.len(),
                self@.valid(),
                self@.fields_seen_count <= usize::MAX,
                all == self@.uids,
                all == cache::uid_views(uids@),
                found == fold::total(all.take(i as int), model::field_number()),
            decreases uids.len() - i,
        {
            proof {
                fold::lemma_prefix(all, i as int);
                fold::lemma_total_prefix(all, i + 1, model::field_number());
                assert(all[i as int] == uids@[i as int]@);
            }
            found = found + uids[i].fields.len();
            i = i + 1;
        }
        assert(all.take(i as int) =~= all);
        found
    }

    /// How many fields are inactive at `now`, of uids that were seen more than once.
    pub fn inactive_field_count_at(&self, added_seconds: Option<u64>, now: i64) -> (r: usize)
        requires
            self.wf(),
        ensures
            r == self@.fields_inactive(self@.added(added_seconds), now as int),
    {
        proof {
            self.lemma_valid();
        }
        let added: u64 = self.added_seconds(added_seconds);
        let uids: &Vec<UidInfo> = self.uids();
        let ghost all = self@.uids;
        let ghost q = model::repeated_uid();
        let ghost p = model::inactive_field(added as int, now as int);
        let mut found: usize = 0;
        let mut i: usize = 0;
        while i < uids.len()
            invariant
                i <= uids@.len(),
                self@.valid(),
                self@.fields_seen_count <= usize::MAX,
                all == self@.uids,
                all == cache::uid_views(uids@),
                q == model::repeated_uid(),
                p == model::inactive_field(added as int, now as int),
                found == fold::total(all.take(i as int), model::fields_where(q, p)),
            decreases uids.len() - i,
        {
            proof {
                lemma_room_to_count(self@, q, p, i as int);
                assert(all[i as int] == uids@[i as int]@);
            }
            if uids[i].seen_count > 1 {
                found = found + uids[i].count_inactive_fields(added, now);
            }
            i = i + 1;
        }
        assert(all.take(i as int) =~= all);
        found
    }

    /// How many fields are inactive by the clock, of uids that were seen more than once.
    pub fn inactive_field_count(&self, added_seconds: Option<u64>) -> (r: usize)
        requires
            self.wf(),
        ensures
            exists|now: i64| #[trigger]
                self@.fields_inactive(self@.added(added_seconds), now as int) == r,
    {
        self.inactive_field_count_at(added_seconds, curtime())
    }

    /// How many fields changed in the `seconds` seconds before `now`.
    pub fn changed_fields_last_seconds_at(&self, seconds: i64, now: i64) -> (r: usize)
        requires
            self.wf(),
        ensures
            r == self@.fields_changed(seconds as int, now as int),
    {
        proof {
            self.lemma_valid();
        }
        let oldest: i128 = now as i128 - seconds as i128;
        let uids: &Vec<UidInfo> = self.uids();
        let ghost all = self@.uids;
        let ghost q = model::any_uid();
        let ghost p = model::field_changed_since(oldest as int);
        let mut found: usize = 0;
        let mut i: usize = 0;
        while i < uids.len()
            invariant
                i <= uids@.len(),
                self@.valid(),
                self@.fields_seen_count <= usize::MAX,
                all == self@.uids,
                all == cache::uid_views(uids@),
                q == model::any_uid(),
                p == model::field_changed_since(oldest as int),
                found == fold::total(all.take(i as int), model::fields_where(q, p)),
            decreases uids.len() - i,
        {
            proof {
                lemma_room_to_count(self@, q, p, i as int);
                assert(all[i as int] == uids@[i as int]@);
            }
            found = found + uids[i].count_changed_fields(oldest);
            i = i + 1;
        }
        assert(all.take(i as int) =~= all);
        found
    }

    /// How many fields changed in the last `seconds` seconds by the clock.
    pub fn changed_fields_last_seconds(&self, seconds: i64) -> (r: usize)
        requires
            self.wf(),
        ensures
            exists|now: i64| #[trigger] self@.fields_changed(seconds as int, now as int) == r,
    {
        self.changed_fields_last_seconds_at(seconds, curtime())
    }

    /// The ages of the uids at `now`: the least, the greatest, and the average.
    pub fn get_uid_age_stats_at(&self, now: i64) -> (r: Ages)
        ensures
            r@ == self@.ages(now as int),
    {
        let uids: &Vec<UidInfo> = self.uids();
        let ghost all = self@.uids;
        let ghost f = model::age_at(now as int);
        let n: usize = uids.len();
        if n == 0 {
            assert(all.len() == 0);
            return Ages { min: 0, max: 0, average: 0 };
        }
        let mut min: i128 = now as i128 - uids[0].last_seen_ts as i128;
        let mut max: i128 = 0;
        // The sum of the ages so far is `n * whole + rest`.
        let mut whole: i128 = 0;
        let mut rest: i128 = 0;
        let mut i: usize = 0;
        assert(all[0] == uids@[0]@);
        while i < n
            invariant
                i <= n == uids@.len(),
                n > 0,
                all == cache::uid_views(uids@),
                f == model::age_at(now as int),
                i == 0 ==> min == now - all[0].last_seen_ts,
                i > 0 ==> min == model::least_age(all.take(i as int), now as int),
                max == model::greatest_age(all.take(i as int), now as int),
                0 <= max < AGE_LIMIT,
                -AGE_LIMIT < min < AGE_LIMIT,
                n * whole + rest == fold::total(all.take(i as int), f),
                0 <= rest < n,
                -(i * AGE_LIMIT) <= fold::total(all.take(i as int), f) <= i * AGE_LIMIT,
                -AGE_LIMIT - 1 <= whole <= AGE_LIMIT,
            decreases n - i,
        {
            proof {
                fold::lemma_prefix(all, i as int);
                assert(all[i as int] == uids@[i as int]@);
                assert(all.take(1)[0] == all[0]);
            }
            let age: i128 = now as i128 - uids[i].last_seen_ts as i128;
            if age < min {
                min = age;
            }
            if age > max {
                max = age;
            }
            let parts: (i128, i128) = divide_down(age, n as i128);
            let ghost sum = fold::total(all.take(i as int), f);
            let ghost old_whole = whole;
            let ghost old_rest = rest;
            if rest + parts.1 >= n as i128 {
                whole = whole + parts.0 + 1;
                rest = rest + parts.1 - n as i128;
            } else {
                whole = whole + parts.0;
                rest = rest + parts.1;
            }
            proof {
                assert(n * whole + rest == sum + age) by (nonlinear_arith)
                    requires
                        n * old_whole + old_rest == sum,
                        n * parts.0 + parts.1 == age,
                        (whole == old_whole + parts.0 + 1 && rest == old_rest + parts.1 - n) || (
                        whole == old_whole + parts.0 && rest == old_rest + parts.1),
                ;
                lemma_whole_bound(whole as int, rest as int, n as int, i + 1, sum + age);
            }
            i = i + 1;
        }
        proof {
            assert(all.take(n as int) =~= all);
            lemma_average(whole as int, rest as int, n as int);
        }
        let average: i128 = if whole < 0 && rest > 0 {
            whole + 1
        } else {
            whole
        };
        Ages { min, max, average }
    }

    /// The ages of the uids by the clock.
    pub fn get_uid_age_stats(&self) -> (r: Ages)
        ensures
            exists|now: i64| #[trigger] self@.ages(now as int) == r@,
    {
        self.get_uid_age_stats_at(curtime())
    }

    /// How many field names there are over all uids, without and with repetition.
    pub fn unique_field_name_count(&self) -> (r: (usize, usize))
        requires
            self.wf(),
        ensures
            r.0 == self@.field_names().to_set().len(),
            r.1 == self@.field_names().len(),
            r.1 == self@.field_total(),
    {
        proof {
            self.lemma_valid();
        }
        let uids: &Vec<UidInfo> = self.uids();
        let ghost all = self@.uids;
        let ghost f = model::names_of();
        let mut names: StringHashSet = StringHashSet::new();
        let mut found: usize = 0;
        let mut i: usize = 0;
        assert(fold::concat(all.take(0), f).to_set() =~= Set::<Seq<char>>::empty());
        while i < uids.len()
            invariant
                i <= uids@.len(),
                self@.valid(),
                self@.fields_seen_count <= usize::MAX,
                all == self@.uids,
                all == cache::uid_views(uids@),
                f == model::names_of(),
                names@ == fold::concat(all.take(i as int), f).to_set(),
                found == fold::concat(all.take(i as int), f).len(),
                found == fold::total(all.take(i as int), model::field_number()),
            decreases uids.len() - i,
        {
            let ghost before = fold::concat(all.take(i as int), f);
            let ghost own = f(all[i as int]);
            proof {
                fold::lemma_prefix(all, i as int);
                fold::lemma_total_prefix(all, i + 1, model::field_number());
                assert(all[i as int] == uids@[i as int]@);
                assert(before + own.take(0) =~= before);
            }
            let mut k: usize = 0;
            while k < uids[i].fields.len()
                invariant
                    i < uids@.len(),
                    k <= uids@[i as int].fields@.len(),
                    f == model::names_of(),
                    all == cache::uid_views(uids@),
                    own == f(all[i as int]),
                    names@ == (before + own.take(k as int)).to_set(),
                    found == before.len() + k,
                    before.len() + own.len() <= usize::MAX,
                decreases uids[i as int].fields.len() - k,
            {
                proof {
                    fold::lemma_prefix(own, k as int);
                    assert(own[k as int] == uids@[i as int].fields@[k as int].name@);
                    assert((before + own.take(k + 1)) =~= (before + own.take(k as int)).push(
                        own[k as int],
                    ));
                    lemma_to_set_push(before + own.take(k as int), own[k as int]);
                }
                names.insert(uids[i].fields[k].name.clone());
                found = found + 1;
                k = k + 1;
            }
            proof {
                assert(own.take(k as int) =~= own);
                assert(fold::concat(all.take(i + 1), f) =~= before + own);
            }
            i = i + 1;
        }
        assert(all.take(i as int) =~= all);
        (names.len(), found)
    }
}

proof fn lemma_to_set_push<T>(s: Seq<T>, x: T)
    ensures
        s.push(x).to_set() == s.to_set().insert(x),
{
    assert forall|y: T| s.push(x).to_set().contains(y) <==> s.to_set().insert(x).contains(y) by {
        if s.to_set().contains(y) {
            let i = choose|i: int| 0 <= i < s.len() && s[i] == y;
            assert(s.push(x)[i] == y);
        }
        if y == x {
            assert(s.push(x)[s.len() as int] == y);
        }
        if s.push(x).contains(y) && y != x {
            let i = choose|i: int| 0 <= i < s.push(x).len() && s.push(x)[i] == y;
            assert(s[i] == y);
        }
    }
    assert(s.push(x).to_set() =~= s.to_set().insert(x));
}

} // verus!
