//! What is counted.

use vstd::prelude::*;

use crate::activity::Ages;
use crate::cache::ValueCache;
use crate::fold;
use crate::laws::recording;
use crate::laws::silence;
use crate::laws::values;
use crate::model;
use crate::model::{CacheView, FieldView, ItemView, UidView};

verus! {

// ---------------------------------------------------------------- places

/// Where the items stand that satisfy `p`.
pub open spec fn items_where<T>(s: Seq<T>, p: spec_fn(T) -> bool) -> Set<int> {
    Set::new(|i: int| 0 <= i < s.len() && p(s[i]))
}

/// Where the fields stand that satisfy `q` with their uids: the place of the uid, and that of the
/// field under it.
pub open spec fn fields_at(
    uids: Seq<UidView>,
    q: spec_fn(UidView, FieldView) -> bool,
) -> Set<(int, int)> {
    Set::new(
        |p: (int, int)|
            0 <= p.0 < uids.len() && 0 <= p.1 < uids[p.0].fields.len() && q(
                uids[p.0],
                uids[p.0].fields[p.1],
            ),
    )
}

/// A count is the number of places that satisfy the condition.
pub proof fn law_count<T>(s: Seq<T>, p: spec_fn(T) -> bool)
    ensures
        items_where(s, p).finite(),
        fold::count(s, p) == items_where(s, p).len(),
    decreases s.len(),
{
    let all = items_where(s, p);
    if s.len() == 0 {
        assert(all =~= Set::empty());
    } else {
        let t = s.drop_last();
        let before = items_where(t, p);
        let n = s.len() - 1;
        law_count(t, p);
        assert(!before.contains(n));
        if p(s[n]) {
            assert(all =~= before.insert(n));
        } else {
            assert(all =~= before);
        }
    }
}

/// Two conditions that agree on the items hold at the same places.
proof fn lemma_same_items<T>(s: Seq<T>, p: spec_fn(T) -> bool, q: spec_fn(T) -> bool)
    requires
        forall|i: int| 0 <= i < s.len() ==> p(#[trigger] s[i]) == q(s[i]),
    ensures
        items_where(s, p) == items_where(s, q),
{
    assert(items_where(s, p) =~= items_where(s, q));
}

/// A sum over uids of the numbers of their fields that satisfy a condition is the number of places
/// of such fields.
proof fn lemma_total_fields(
    uids: Seq<UidView>,
    f: spec_fn(UidView) -> int,
    q: spec_fn(UidView, FieldView) -> bool,
)
    requires
        forall|i: int|
            0 <= i < uids.len() ==> f(#[trigger] uids[i]) == items_where(
                uids[i].fields,
                |x: FieldView| q(uids[i], x),
            ).len(),
    ensures
        fields_at(uids, q).finite(),
        fold::total(uids, f) == fields_at(uids, q).len(),
    decreases uids.len(),
{
    let all = fields_at(uids, q);
    if uids.len() == 0 {
        assert(all =~= Set::empty());
    } else {
        let t = uids.drop_last();
        let n = uids.len() - 1;
        let u = uids[n];
        let p = |x: FieldView| q(u, x);
        let own = items_where(u.fields, p);
        let g = |k: int| (n, k);
        let image = own.map(g);
        let before = fields_at(t, q);
        assert forall|i: int| 0 <= i < t.len() implies f(#[trigger] t[i]) == items_where(
            t[i].fields,
            |x: FieldView| q(t[i], x),
        ).len() by {
            assert(t[i] == uids[i]);
        }
        lemma_total_fields(t, f, q);
        law_count(u.fields, p);
        assert(vstd::relations::injective_on(g, own));
        vstd::set_lib::lemma_map_size(own, image, g);
        assert(f(uids[n]) == own.len());
        assert forall|x: (int, int)| all.contains(x) <==> before.union(image).contains(x) by {
            if all.contains(x) && x.0 == n {
                assert(own.contains(x.1));
                assert(image.contains(g(x.1)));
            }
            if image.contains(x) {
                let k = choose|k: int| own.contains(k) && #[trigger] g(k) == x;
            }
        }
        assert(all =~= before.union(image));
        assert(before.disjoint(image)) by {
            assert forall|x: (int, int)| before.contains(x) implies !image.contains(x) by {
                if image.contains(x) {
                    let k = choose|k: int| own.contains(k) && #[trigger] g(k) == x;
                }
            }
        }
        vstd::set_lib::lemma_set_disjoint_lens(before, image);
    }
}

/// Sums, counts and concatenations over one sequence behind another are those over the first and
/// the second; over one item, what the item gives; over nothing, nothing.
pub proof fn law_folds<T, U>(
    s: Seq<T>,
    t: Seq<T>,
    x: T,
    p: spec_fn(T) -> bool,
    f: spec_fn(T) -> int,
    g: spec_fn(T) -> Seq<U>,
)
    ensures
        fold::count(s + t, p) == fold::count(s, p) + fold::count(t, p),
        fold::count(seq![x], p) == (if p(x) {
            1nat
        } else {
            0nat
        }),
        fold::count(Seq::<T>::empty(), p) == 0,
        fold::total(s + t, f) == fold::total(s, f) + fold::total(t, f),
        fold::total(seq![x], f) == f(x),
        fold::total(Seq::<T>::empty(), f) == 0,
        fold::concat(s + t, g) == fold::concat(s, g) + fold::concat(t, g),
        fold::concat(seq![x], g) == g(x),
        fold::concat(Seq::<T>::empty(), g) == Seq::<U>::empty(),
    decreases t.len(),
{
    reveal_with_fuel(fold::count, 2);
    reveal_with_fuel(fold::total, 2);
    reveal_with_fuel(fold::concat, 2);
    assert(seq![x].drop_last() =~= Seq::<T>::empty());
    assert(fold::concat(seq![x], g) =~= g(x));
    if t.len() == 0 {
        assert(s + t =~= s);
        assert(fold::concat(s, g) + fold::concat(t, g) =~= fold::concat(s, g));
    } else {
        assert((s + t).drop_last() =~= s + t.drop_last());
        assert((s + t).last() == t.last());
        law_folds(s, t.drop_last(), x, p, f, g);
        assert(fold::concat(s + t, g) =~= fold::concat(s, g) + fold::concat(t, g));
    }
}

// ---------------------------------------------------------------- uids

/// The uids whose latest value came at `oldest` or after it.
pub open spec fn uids_since(uids: Seq<UidView>, oldest: int) -> Set<int> {
    items_where(uids, |u: UidView| u.last_seen_ts >= oldest)
}

/// The uids counted as seen are those whose latest value is at most so many seconds old.
pub proof fn law_uid_count(c: &ValueCache, seconds: i64, now: i64, r: usize)
    requires
        call_ensures(ValueCache::uid_count_last_seconds_at, (c, seconds, now), r),
    ensures
        r == uids_since(c@.uids, now - seconds).len(),
{
    lemma_uids_seen(c@, seconds as int, now as int);
}

pub proof fn lemma_uids_seen(c: CacheView, seconds: int, now: int)
    ensures
        c.uids_seen(seconds, now) == uids_since(c.uids, now - seconds).len(),
{
    let p = model::uid_seen_since(now - seconds);
    law_count(c.uids, p);
    lemma_same_items(c.uids, p, |u: UidView| u.last_seen_ts >= now - seconds);
}

/// By the clock too, the uids counted as seen are those whose latest value is at most so many
/// seconds old.
pub proof fn law_uid_count_now(c: &ValueCache, seconds: i64, r: usize)
    requires
        call_ensures(ValueCache::uid_count_last_seconds, (c, seconds), r),
    ensures
        exists|now: i64| r == (#[trigger] uids_since(c@.uids, now - seconds)).len(),
{
    let now = choose|now: i64| #[trigger] c@.uids_seen(seconds as int, now as int) == r;
    lemma_uids_seen(c@, seconds as int, now as int);
    assert(r == uids_since(c@.uids, now - seconds).len());
}

/// All uids are counted, each once.
pub proof fn law_total_uid_count(c: &ValueCache, r: usize)
    requires
        call_ensures(ValueCache::total_uid_count, (c,), r),
    ensures
        r == c@.uids.len(),
{
}

/// The uids whose latest value came before `oldest`.
pub open spec fn uids_before(uids: Seq<UidView>, oldest: int) -> Set<int> {
    items_where(uids, |u: UidView| u.last_seen_ts < oldest)
}

pub proof fn lemma_uids_silent(c: CacheView, added: int, now: int)
    ensures
        c.uids_silent(added, now) == uids_before(c.uids, now - added).len(),
{
    let p = model::silent_uid(added, now);
    law_count(c.uids, p);
    lemma_same_items(c.uids, p, |u: UidView| u.last_seen_ts < now - added);
}

/// The uids counted as inactive are those whose latest value is over so many seconds old.
pub proof fn law_inactive_uid_count(c: &ValueCache, seconds: Option<u64>, now: i64, r: usize)
    requires
        call_ensures(ValueCache::inactive_uid_count_at, (c, seconds, now), r),
    ensures
        r == uids_before(c@.uids, now - silence::threshold(c@, seconds)).len(),
{
    lemma_uids_silent(c@, silence::threshold(c@, seconds), now as int);
}

/// By the clock too, the uids counted as inactive are those whose latest value is over so many
/// seconds old.
pub proof fn law_inactive_uid_count_now(c: &ValueCache, seconds: Option<u64>, r: usize)
    requires
        call_ensures(ValueCache::inactive_uid_count, (c, seconds), r),
    ensures
        exists|now: i64|
            r == (#[trigger] uids_before(c@.uids, now - silence::threshold(c@, seconds))).len(),
{
    let now = choose|now: i64| #[trigger] c@.uids_silent(c@.added(seconds), now as int) == r;
    lemma_uids_silent(c@, silence::threshold(c@, seconds), now as int);
    assert(r == uids_before(c@.uids, now - silence::threshold(c@, seconds)).len());
}

// ---------------------------------------------------------------- fields

/// The fields whose latest value came at `oldest` or after it.
pub open spec fn fields_since(uids: Seq<UidView>, oldest: int) -> Set<(int, int)> {
    fields_at(uids, |u: UidView, f: FieldView| f.last_seen_ts >= oldest)
}

proof fn lemma_fields_where(
    uids: Seq<UidView>,
    a: spec_fn(UidView) -> bool,
    b: spec_fn(FieldView) -> bool,
    q: spec_fn(UidView, FieldView) -> bool,
)
    requires
        forall|i: int, k: int|
            0 <= i < uids.len() && 0 <= k < uids[i].fields.len() ==> q(
                uids[i],
                #[trigger] uids[i].fields[k],
            ) == (a(uids[i]) && b(uids[i].fields[k])),
    ensures
        fields_at(uids, q).finite(),
        fold::total(uids, model::fields_where(a, b)) == fields_at(uids, q).len(),
{
    let f = model::fields_where(a, b);
    assert forall|i: int| 0 <= i < uids.len() implies f(#[trigger] uids[i]) == items_where(
        uids[i].fields,
        |x: FieldView| q(uids[i], x),
    ).len() by {
        let u = uids[i];
        law_count(u.fields, b);
        let p = |x: FieldView| q(u, x);
        if a(u) {
            assert forall|k: int| 0 <= k < u.fields.len() implies b(#[trigger] u.fields[k]) == p(
                u.fields[k],
            ) by {
                assert(q(uids[i], uids[i].fields[k]) == (a(uids[i]) && b(uids[i].fields[k])));
            }
            lemma_same_items(u.fields, b, p);
        } else {
            assert forall|k: int| 0 <= k < u.fields.len() implies !p(#[trigger] u.fields[k]) by {
                assert(q(uids[i], uids[i].fields[k]) == (a(uids[i]) && b(uids[i].fields[k])));
            }
            assert(items_where(u.fields, p) =~= Set::empty());
        }
    }
    lemma_total_fields(uids, f, q);
}

/// Over a valid cache, the fields counted as seen are those whose latest value is recent enough;
/// the uid of such a field was seen as lately.
pub proof fn lemma_fields_seen(c: CacheView, seconds: int, now: int)
    requires
        c.valid(),
    ensures
        c.fields_seen(seconds, now) == fields_since(c.uids, now - seconds).len(),
{
    let q = |u: UidView, f: FieldView| f.last_seen_ts >= now - seconds;
    let a = model::uid_seen_since(now - seconds);
    let b = model::field_seen_since(now - seconds);
    assert forall|i: int, k: int| 0 <= i < c.uids.len() && 0 <= k < c.uids[i].fields.len() implies q(
        c.uids[i],
        #[trigger] c.uids[i].fields[k],
    ) == (a(c.uids[i]) && b(c.uids[i].fields[k])) by {
        assert(c.uids[i].valid());
        assert(c.uids[i].fields[k].valid());
    }
    lemma_fields_where(c.uids, a, b, q);
}

/// The fields counted as seen are those whose latest value is at most so many seconds old.
pub proof fn law_field_count(c: &ValueCache, seconds: i64, now: i64, r: usize)
    requires
        c.wf(),
        call_ensures(ValueCache::field_count_last_seconds_at, (c, seconds, now), r),
    ensures
        r == fields_since(c@.uids, now - seconds).len(),
{
    c.lemma_valid();
    lemma_fields_seen(c@, seconds as int, now as int);
}

/// By the clock too, the fields counted as seen are those whose latest value is at most so many
/// seconds old.
pub proof fn law_field_count_now(c: &ValueCache, seconds: i64, r: usize)
    requires
        c.wf(),
        call_ensures(ValueCache::field_count_last_seconds, (c, seconds), r),
    ensures
        exists|now: i64| r == (#[trigger] fields_since(c@.uids, now - seconds)).len(),
{
    c.lemma_valid();
    let now = choose|now: i64| #[trigger] c@.fields_seen(seconds as int, now as int) == r;
    lemma_fields_seen(c@, seconds as int, now as int);
    assert(r == fields_since(c@.uids, now - seconds).len());
}

/// All fields of all uids.
pub open spec fn all_fields(uids: Seq<UidView>) -> Set<(int, int)> {
    fields_at(uids, |u: UidView, f: FieldView| true)
}

pub proof fn lemma_field_total(c: CacheView)
    ensures
        all_fields(c.uids).finite(),
        c.field_total() == all_fields(c.uids).len(),
{
    let q = |u: UidView, f: FieldView| true;
    assert forall|i: int| 0 <= i < c.uids.len() implies model::field_number()(#[trigger] c.uids[i])
        == items_where(c.uids[i].fields, |x: FieldView| q(c.uids[i], x)).len() by {
        let n = c.uids[i].fields.len() as int;
        let p = |x: FieldView| q(c.uids[i], x);
        vstd::set_lib::lemma_int_range(0, n);
        assert(items_where(c.uids[i].fields, p) =~= vstd::set_lib::set_int_range(0, n));
    }
    lemma_total_fields(c.uids, model::field_number(), q);
}

/// All fields are counted, each once.
pub proof fn law_total_field_count(c: &ValueCache, r: usize)
    requires
        call_ensures(ValueCache::total_field_count, (c,), r),
    ensures
        r == all_fields(c@.uids).len(),
{
    lemma_field_total(c@);
}

/// The fields that are silent, of uids that were seen more than once.
pub open spec fn silent_fields(uids: Seq<UidView>, added: int, now: int) -> Set<(int, int)> {
    fields_at(uids, |u: UidView, f: FieldView| u.seen_count >= 2 && silence::silent(f, added, now))
}

pub proof fn lemma_fields_inactive(c: CacheView, added: int, now: int)
    requires
        c.valid(),
    ensures
        c.fields_inactive(added, now) == silent_fields(c.uids, added, now).len(),
{
    let q = |u: UidView, f: FieldView| u.seen_count >= 2 && silence::silent(f, added, now);
    let a = model::repeated_uid();
    let b = model::inactive_field(added, now);
    silence::lemma_timely(c);
    assert forall|i: int, k: int| 0 <= i < c.uids.len() && 0 <= k < c.uids[i].fields.len() implies q(
        c.uids[i],
        #[trigger] c.uids[i].fields[k],
    ) == (a(c.uids[i]) && b(c.uids[i].fields[k])) by {
        silence::law_silent(c.uids[i].fields[k], added, now);
    }
    lemma_fields_where(c.uids, a, b, q);
}

/// The fields counted as inactive are the silent ones of uids that were seen more than once.
pub proof fn law_inactive_field_count(c: &ValueCache, seconds: Option<u64>, now: i64, r: usize)
    requires
        c.wf(),
        call_ensures(ValueCache::inactive_field_count_at, (c, seconds, now), r),
    ensures
        r == silent_fields(c@.uids, silence::threshold(c@, seconds), now as int).len(),
{
    c.lemma_valid();
    lemma_fields_inactive(c@, silence::threshold(c@, seconds), now as int);
}

/// By the clock too, the fields counted as inactive are the silent ones of uids that were seen more
/// than once.
pub proof fn law_inactive_field_count_now(c: &ValueCache, seconds: Option<u64>, r: usize)
    requires
        c.wf(),
        call_ensures(ValueCache::inactive_field_count, (c, seconds), r),
    ensures
        exists|now: i64|
            r == (#[trigger] silent_fields(
                c@.uids,
                silence::threshold(c@, seconds),
                now as int,
            )).len(),
{
    c.lemma_valid();
    let now = choose|now: i64| #[trigger] c@.fields_inactive(c@.added(seconds), now as int) == r;
    lemma_fields_inactive(c@, silence::threshold(c@, seconds), now as int);
    assert(r == silent_fields(c@.uids, silence::threshold(c@, seconds), now as int).len());
}

/// The fields whose last change came at `oldest` or after it.
pub open spec fn changed_since(uids: Seq<UidView>, oldest: int) -> Set<(int, int)> {
    fields_at(uids, |u: UidView, f: FieldView| f.last_changed_ts >= oldest)
}

pub proof fn lemma_fields_changed(c: CacheView, seconds: int, now: int)
    ensures
        changed_since(c.uids, now - seconds).finite(),
        c.fields_changed(seconds, now) == changed_since(c.uids, now - seconds).len(),
{
    let q = |u: UidView, f: FieldView| f.last_changed_ts >= now - seconds;
    lemma_fields_where(c.uids, model::any_uid(), model::field_changed_since(now - seconds), q);
}

/// The fields counted as changed are those whose last change is at most so many seconds old.
pub proof fn law_changed_fields(c: &ValueCache, seconds: i64, now: i64, r: usize)
    requires
        call_ensures(ValueCache::changed_fields_last_seconds_at, (c, seconds, now), r),
    ensures
        r == changed_since(c@.uids, now - seconds).len(),
{
    lemma_fields_changed(c@, seconds as int, now as int);
}

/// By the clock too, the fields counted as changed are those whose last change is at most so many
/// seconds old.
pub proof fn law_changed_fields_now(c: &ValueCache, seconds: i64, r: usize)
    requires
        call_ensures(ValueCache::changed_fields_last_seconds, (c, seconds), r),
    ensures
        exists|now: i64| r == (#[trigger] changed_since(c@.uids, now - seconds)).len(),
{
    let now = choose|now: i64| #[trigger] c@.fields_changed(seconds as int, now as int) == r;
    lemma_fields_changed(c@, seconds as int, now as int);
    assert(r == changed_since(c@.uids, now - seconds).len());
}

/// Right after a line gave a field a value unlike the one it held, the field is among those counted
/// as changed since any time up to the line, however often it had changed before.
pub proof fn law_change_is_counted(
    cache: CacheView,
    uid: Seq<char>,
    equipment_tag: Option<Seq<char>>,
    set: Seq<ItemView>,
    t: i64,
    f: FieldView,
    k: int,
    seconds: int,
    now: int,
) -> (place: (int, int))
    requires
        cache.valid(),
        recording::stands(cache, uid, f),
        0 <= k < set.len(),
        set[k].0 == f.name,
        forall|j: int| 0 <= j < set.len() && j != k ==> (#[trigger] set[j]).0 != set[k].0,
        !values::alike(f.value, set[k].1),
        now - seconds <= t,
    ensures
        ({
            let after = cache.recorded(uid, equipment_tag, set, t, f.measurement);
            let g = after.uids[place.0].fields[place.1];
            &&& changed_since(after.uids, now - seconds).contains(place)
            &&& after.uids[place.0].uid == uid
            &&& g.name == f.name
            &&& g.measurement == f.measurement
            &&& g.last_changed_ts == t
            &&& g.changed_count == f.changed_count + 1
            &&& after.fields_changed(seconds, now) == changed_since(
                after.uids,
                now - seconds,
            ).len()
            &&& after.fields_changed(seconds, now) >= 1
        }),
{
    let after = cache.recorded(uid, equipment_tag, set, t, f.measurement);
    let g = recording::law_value_recorded(cache, uid, equipment_tag, set, t, f, k);
    let (i, p) = choose|i: int, p: int|
        0 <= i < after.uids.len() && after.uids[i].uid == uid && 0 <= p
            < after.uids[i].fields.len() && g == #[trigger] after.uids[i].fields[p];
    lemma_fields_changed(after, seconds, now);
    let all = changed_since(after.uids, now - seconds);
    assert(all.contains((i, p)));
    assert(all.len() >= 1) by {
        assert(all.remove((i, p)).len() == all.len() - 1);
    }
    (i, p)
}

// ---------------------------------------------------------------- ages

/// The least age is that of some uid and of none more; so is the greatest, which is 0 where no uid
/// was seen before `now`; and the average is the sum of all over their number, toward zero.
pub open spec fn ages_of(uids: Seq<UidView>, now: int, min: int, max: int, average: int) -> bool {
    let sum = fold::total(uids, |u: UidView| now - u.last_seen_ts);
    let n = uids.len() as int;
    if n == 0 {
        min == 0 && max == 0 && average == 0
    } else {
        &&& forall|i: int|
            0 <= i < n ==> min <= now - (#[trigger] uids[i]).last_seen_ts <= max
        &&& exists|i: int| 0 <= i < n && min == now - (#[trigger] uids[i]).last_seen_ts
        &&& max >= 0
        &&& max == 0 || exists|i: int| 0 <= i < n && max == now - (#[trigger] uids[i]).last_seen_ts
        &&& sum >= 0 ==> average * n <= sum < (average + 1) * n
        &&& sum < 0 ==> (average - 1) * n < sum <= average * n
    }
}

pub proof fn lemma_ages(c: CacheView, now: int)
    ensures
        ages_of(
            c.uids,
            now,
            c.ages(now).min,
            c.ages(now).max,
            c.ages(now).average,
        ),
{
    if c.uids.len() > 0 {
        lemma_extreme_ages(c.uids, now);
        let sum = fold::total(c.uids, model::age_at(now));
        silence::law_quotient(sum, c.uids.len() as int);
        lemma_same_total(c.uids, model::age_at(now), |u: UidView| now - u.last_seen_ts);
    }
}

proof fn lemma_same_total<T>(s: Seq<T>, f: spec_fn(T) -> int, g: spec_fn(T) -> int)
    requires
        forall|x: T| #[trigger] f(x) == g(x),
    ensures
        fold::total(s, f) == fold::total(s, g),
    decreases s.len(),
{
    if s.len() > 0 {
        lemma_same_total(s.drop_last(), f, g);
        assert(f(s.last()) == g(s.last()));
    }
}

proof fn lemma_extreme_ages(uids: Seq<UidView>, now: int)
    requires
        uids.len() > 0,
    ensures
        forall|i: int|
            0 <= i < uids.len() ==> model::least_age(uids, now) <= now - (
            #[trigger] uids[i]).last_seen_ts <= model::greatest_age(uids, now),
        exists|i: int|
            0 <= i < uids.len() && model::least_age(uids, now) == now - (
            #[trigger] uids[i]).last_seen_ts,
        model::greatest_age(uids, now) >= 0,
        model::greatest_age(uids, now) == 0 || exists|i: int|
            0 <= i < uids.len() && model::greatest_age(uids, now) == now - (
            #[trigger] uids[i]).last_seen_ts,
    decreases uids.len(),
{
    let n = uids.len() - 1;
    let t = uids.drop_last();
    let age = now - uids[n].last_seen_ts;
    if t.len() > 0 {
        lemma_extreme_ages(t, now);
        assert forall|i: int| 0 <= i < uids.len() implies model::least_age(uids, now) <= now - (
        #[trigger] uids[i]).last_seen_ts <= model::greatest_age(uids, now) by {
            if i < n {
                assert(t[i] == uids[i]);
            }
        }
        let i = choose|i: int|
            0 <= i < t.len() && model::least_age(t, now) == now - (#[trigger] t[i]).last_seen_ts;
        assert(uids[i] == t[i]);
        if model::greatest_age(t, now) != 0 {
            let j = choose|i: int|
                0 <= i < t.len() && model::greatest_age(t, now) == now - (
                #[trigger] t[i]).last_seen_ts;
            assert(uids[j] == t[j]);
        }
        assert(uids[n].last_seen_ts == now - age);
    } else {
        assert(model::greatest_age(t, now) == 0);
        assert(uids[0].last_seen_ts == now - age);
    }
}

/// The ages that are told are the least, the greatest and the average of the uids' ages.
pub proof fn law_age_stats(c: &ValueCache, now: i64, r: Ages)
    requires
        call_ensures(ValueCache::get_uid_age_stats_at, (c, now), r),
    ensures
        ages_of(c@.uids, now as int, r.min as int, r.max as int, r.average as int),
{
    lemma_ages(c@, now as int);
    assert(r@ == c@.ages(now as int));
}

/// By the clock too, the ages that are told are the least, the greatest and the average.
pub proof fn law_age_stats_now(c: &ValueCache, r: Ages)
    requires
        call_ensures(ValueCache::get_uid_age_stats, (c,), r),
    ensures
        exists|now: i64| #[trigger]
            ages_of(c@.uids, now as int, r.min as int, r.max as int, r.average as int),
{
    let now = choose|now: i64| #[trigger] c@.ages(now as int) == r@;
    lemma_ages(c@, now as int);
}

// ---------------------------------------------------------------- names

/// The names that some field bears.
pub open spec fn names_in(uids: Seq<UidView>) -> Set<Seq<char>> {
    Set::new(
        |name: Seq<char>|
            exists|i: int, k: int|
                0 <= i < uids.len() && 0 <= k < uids[i].fields.len() && (
                #[trigger] uids[i].fields[k]).name == name,
    )
}

pub proof fn lemma_names(c: CacheView)
    ensures
        c.field_names().to_set() == names_in(c.uids),
        c.field_names().len() == all_fields(c.uids).len(),
{
    lemma_names_in(c.uids);
    lemma_field_total(c);
    crate::laws::law_counts_bounded(c, 0, 0, 0);
}

proof fn lemma_names_in(uids: Seq<UidView>)
    ensures
        fold::concat(uids, model::names_of()).to_set() == names_in(uids),
    decreases uids.len(),
{
    let all = fold::concat(uids, model::names_of());
    if uids.len() > 0 {
        let t = uids.drop_last();
        let n = uids.len() - 1;
        lemma_names_in(t);
        let head = fold::concat(t, model::names_of());
        let own = model::names_of()(uids[n]);
        assert(all == head + own);
        assert forall|x: Seq<char>| all.to_set().contains(x) <==> names_in(uids).contains(x) by {
            if all.contains(x) {
                let p = choose|p: int| 0 <= p < all.len() && all[p] == x;
                if p < head.len() {
                    assert(head[p] == x);
                    assert(head.to_set().contains(x));
                    let (i, k) = choose|i: int, k: int|
                        0 <= i < t.len() && 0 <= k < t[i].fields.len() && (
                        #[trigger] t[i].fields[k]).name == x;
                    assert(uids[i].fields[k].name == x);
                } else {
                    assert(uids[n].fields[p - head.len()].name == x);
                }
            }
            if names_in(uids).contains(x) {
                let (i, k) = choose|i: int, k: int|
                    0 <= i < uids.len() && 0 <= k < uids[i].fields.len() && (
                    #[trigger] uids[i].fields[k]).name == x;
                if i < n {
                    assert(t[i].fields[k].name == x);
                    assert(head.to_set().contains(x));
                    let p = choose|p: int| 0 <= p < head.len() && head[p] == x;
                    assert(all[p] == x);
                } else {
                    assert(own[k] == x);
                    assert(all[head.len() + k] == x);
                }
            }
        }
        assert(all.to_set() =~= names_in(uids));
    } else {
        assert(all.to_set() =~= names_in(uids));
    }
}

/// The names that some field bears are counted once, and the names of all fields over again.
pub proof fn law_unique_field_names(c: &ValueCache, r: (usize, usize))
    requires
        call_ensures(ValueCache::unique_field_name_count, (c,), r),
    ensures
        r.0 == names_in(c@.uids).len(),
        r.1 == all_fields(c@.uids).len(),
{
    lemma_names(c@);
}

// ---------------------------------------------------------------- removal

/// The fields of uids of which nothing is alive.
pub open spec fn fields_of_silent_uids(uids: Seq<UidView>, added: int, now: int) -> Set<
    (int, int),
> {
    fields_at(uids, |u: UidView, f: FieldView| !silence::alive(u, added, now))
}

/// The silent fields of uids of which something is alive.
pub open spec fn silent_fields_of_alive_uids(uids: Seq<UidView>, added: int, now: int) -> Set<
    (int, int),
> {
    fields_at(
        uids,
        |u: UidView, f: FieldView| silence::alive(u, added, now) && silence::silent(f, added, now),
    )
}

pub proof fn lemma_removed_counts(c: CacheView, added: int, now: int)
    requires
        c.valid(),
    ensures
        c.uids_inactive(added, now) == items_where(
            c.uids,
            |u: UidView| !silence::alive(u, added, now),
        ).len(),
        c.fields_of_inactive_uids(added, now) == fields_of_silent_uids(c.uids, added, now).len(),
        c.inactive_fields_of_active_uids(added, now) == silent_fields_of_alive_uids(
            c.uids,
            added,
            now,
        ).len(),
{
    silence::lemma_timely(c);
    let dead = |u: UidView| !silence::alive(u, added, now);
    let whole = model::inactive_uid(added, now);
    assert forall|i: int| 0 <= i < c.uids.len() implies whole(#[trigger] c.uids[i]) == dead(
        c.uids[i],
    ) by {
        assert forall|k: int| 0 <= k < c.uids[i].fields.len() implies (
        #[trigger] c.uids[i].fields[k]).first_seen_ts <= c.uids[i].fields[k].last_seen_ts by {}
        silence::law_uid_silent(c.uids[i], added, now);
    }
    law_count(c.uids, whole);
    lemma_same_items(c.uids, whole, dead);
    let q = |u: UidView, f: FieldView| !silence::alive(u, added, now);
    assert forall|i: int| 0 <= i < c.uids.len() implies model::fields_of_inactive(added, now)(
        #[trigger] c.uids[i],
    ) == items_where(c.uids[i].fields, |x: FieldView| q(c.uids[i], x)).len() by {
        let n = c.uids[i].fields.len() as int;
        let p = |x: FieldView| q(c.uids[i], x);
        assert(whole(c.uids[i]) == dead(c.uids[i]));
        vstd::set_lib::lemma_int_range(0, n);
        if dead(c.uids[i]) {
            assert(items_where(c.uids[i].fields, p) =~= vstd::set_lib::set_int_range(0, n));
        } else {
            assert(items_where(c.uids[i].fields, p) =~= Set::empty());
        }
    }
    lemma_total_fields(c.uids, model::fields_of_inactive(added, now), q);
    let a = model::active_uid(added, now);
    let b = model::inactive_field(added, now);
    let s = |u: UidView, f: FieldView|
        silence::alive(u, added, now) && silence::silent(f, added, now);
    assert forall|i: int, k: int| 0 <= i < c.uids.len() && 0 <= k < c.uids[i].fields.len() implies s(
        c.uids[i],
        #[trigger] c.uids[i].fields[k],
    ) == (a(c.uids[i]) && b(c.uids[i].fields[k])) by {
        assert(whole(c.uids[i]) == dead(c.uids[i]));
        silence::law_silent(c.uids[i].fields[k], added, now);
    }
    lemma_fields_where(c.uids, a, b, s);
}

} // verus!
