//! Fields in the order of their names and measurements.

use vstd::prelude::*;

use crate::cache;
use crate::cache::FieldInfo;
use crate::fold;
use crate::model;
use crate::model::FieldView;
use crate::text;

verus! {

/// `a` is not after `b` by name, or by measurement where the names are the same.
pub open spec fn field_not_after(a: FieldView, b: FieldView) -> bool {
    if a.name == b.name {
        text::not_after(a.measurement, b.measurement)
    } else {
        text::not_after(a.name, b.name)
    }
}

/// No field is after one behind it.
pub open spec fn in_key_order(fields: Seq<FieldView>) -> bool {
    forall|i: int, j: int|
        0 <= i < j < fields.len() ==> field_not_after(#[trigger] fields[i], #[trigger] fields[j])
}

/// `o` holds the fields of `s`, each as often, in the order of names and measurements.
pub open spec fn is_key_order(s: Seq<FieldView>, o: Seq<FieldView>) -> bool {
    o.to_multiset() == s.to_multiset() && in_key_order(o)
}

/// The fields of `s` in the order of their names and measurements.
pub open spec fn key_order(s: Seq<FieldView>) -> Seq<FieldView> {
    choose|o: Seq<FieldView>| is_key_order(s, o)
}

/// The fields at these places.
pub open spec fn picked(fields: Seq<FieldView>, places: Seq<usize>) -> Seq<FieldView> {
    places.map_values(|i: usize| fields[i as int])
}

proof fn lemma_field_order(a: FieldView, b: FieldView, c: FieldView)
    ensures
        field_not_after(a, b) || field_not_after(b, a),
        field_not_after(a, b) && field_not_after(b, c) ==> field_not_after(a, c),
        field_not_after(a, b) && field_not_after(b, a) ==> a.is(b.name, b.measurement),
{
    text::lemma_not_after_total(a.name, b.name);
    text::lemma_not_after_total(a.measurement, b.measurement);
    if field_not_after(a, b) && field_not_after(b, a) {
        if a.name != b.name {
            text::lemma_not_after_antisymmetric(a.name, b.name);
        }
        text::lemma_not_after_antisymmetric(a.measurement, b.measurement);
    }
    if field_not_after(a, b) && field_not_after(b, c) {
        if a.name == b.name && b.name == c.name {
            text::lemma_not_after_transitive(a.measurement, b.measurement, c.measurement);
        } else if a.name != b.name && b.name != c.name {
            text::lemma_not_after_transitive(a.name, b.name, c.name);
            if a.name == c.name {
                text::lemma_not_after_antisymmetric(a.name, b.name);
            }
        }
    }
}

/// A field that goes in behind those that are not after it, and before one that is, keeps the order.
proof fn lemma_inserted(o: Seq<FieldView>, at: int, x: FieldView)
    requires
        in_key_order(o),
        0 <= at <= o.len(),
        forall|k: int| 0 <= k < at ==> field_not_after(#[trigger] o[k], x),
        at < o.len() ==> !field_not_after(o[at], x),
    ensures
        in_key_order(o.insert(at, x)),
{
    let after = o.insert(at, x);
    assert forall|k: int, l: int| 0 <= k < l < after.len() implies field_not_after(
        #[trigger] after[k],
        #[trigger] after[l],
    ) by {
        if k == at {
            lemma_field_order(x, o[at], o[l - 1]);
            if l - 1 > at {
                assert(field_not_after(o[at], o[l - 1]));
            }
        } else {
            let i = if k < at {
                k
            } else {
                k - 1
            };
            if l != at {
                let j = if l < at {
                    l
                } else {
                    l - 1
                };
                assert(field_not_after(o[i], o[j]));
            }
        }
    }
}

/// Where a field goes in.
proof fn lemma_insertion_place(o: Seq<FieldView>, x: FieldView) -> (at: int)
    ensures
        0 <= at <= o.len(),
        forall|k: int| 0 <= k < at ==> field_not_after(#[trigger] o[k], x),
        at < o.len() ==> !field_not_after(o[at], x),
    decreases o.len(),
{
    if o.len() == 0 {
        0
    } else {
        let t = o.drop_last();
        let at = lemma_insertion_place(t, x);
        assert forall|k: int| 0 <= k < at implies field_not_after(#[trigger] o[k], x) by {
            assert(t[k] == o[k]);
        }
        if at < t.len() || !field_not_after(o.last(), x) {
            at
        } else {
            at + 1
        }
    }
}

/// Every sequence of fields has an order by names and measurements, and [`key_order`] is one.
pub proof fn law_key_order(s: Seq<FieldView>)
    ensures
        is_key_order(s, key_order(s)),
    decreases s.len(),
{
    broadcast use vstd::seq_lib::group_to_multiset_ensures;

    if s.len() == 0 {
        assert(is_key_order(s, s));
    } else {
        let x = s.last();
        let t = s.drop_last();
        law_key_order(t);
        let o = key_order(t);
        let at = lemma_insertion_place(o, x);
        lemma_inserted(o, at, x);
        vstd::seq_lib::to_multiset_insert(o, at, x);
        vstd::seq_lib::to_multiset_build(t, x);
        assert(s =~= t.push(x));
        assert(is_key_order(s, o.insert(at, x)));
    }
}

/// Two orders of the same fields are the same, where a field is determined by its name and
/// measurement.
proof fn lemma_order_unique(a: Seq<FieldView>, b: Seq<FieldView>)
    requires
        a.to_multiset() == b.to_multiset(),
        in_key_order(a),
        in_key_order(b),
        forall|x: FieldView, y: FieldView|
            a.contains(x) && a.contains(y) && #[trigger] x.is(y.name, y.measurement) ==> x == y,
    ensures
        a == b,
    decreases a.len(),
{
    broadcast use vstd::seq_lib::group_to_multiset_ensures;

    assert(a.len() == a.to_multiset().len());
    assert(b.len() == b.to_multiset().len());
    if a.len() > 0 {
        let x = a[0];
        let y = b[0];
        assert(a.contains(x));
        assert(b.contains(y));
        assert(a.to_multiset().count(x) > 0);
        assert(b.to_multiset().count(y) > 0);
        assert(b.contains(x));
        assert(a.contains(y));
        let i = choose|i: int| 0 <= i < b.len() && b[i] == x;
        let j = choose|j: int| 0 <= j < a.len() && a[j] == y;
        if i > 0 && j > 0 {
            assert(field_not_after(b[0], b[i]));
            assert(field_not_after(a[0], a[j]));
            lemma_field_order(x, y, x);
            assert(x.is(y.name, y.measurement));
        }
        assert(x == y);
        let ra = a.remove(0);
        let rb = b.remove(0);
        assert(ra.to_multiset() =~= a.to_multiset().remove(x));
        assert(rb.to_multiset() =~= b.to_multiset().remove(x));
        assert forall|p: FieldView, q: FieldView|
            ra.contains(p) && ra.contains(q) && #[trigger] p.is(q.name, q.measurement) implies p
            == q by {
            let k = choose|k: int| 0 <= k < ra.len() && ra[k] == p;
            let l = choose|l: int| 0 <= l < ra.len() && ra[l] == q;
            assert(a[k + 1] == p);
            assert(a[l + 1] == q);
        }
        assert(in_key_order(ra)) by {
            assert forall|k: int, l: int| 0 <= k < l < ra.len() implies field_not_after(
                #[trigger] ra[k],
                #[trigger] ra[l],
            ) by {
                assert(field_not_after(a[k + 1], a[l + 1]));
            }
        }
        assert(in_key_order(rb)) by {
            assert forall|k: int, l: int| 0 <= k < l < rb.len() implies field_not_after(
                #[trigger] rb[k],
                #[trigger] rb[l],
            ) by {
                assert(field_not_after(b[k + 1], b[l + 1]));
            }
        }
        lemma_order_unique(ra, rb);
        assert(a =~= seq![x] + ra);
        assert(b =~= seq![x] + rb);
    } else {
        assert(a =~= b);
    }
}

/// There is only one order of distinct fields.
pub proof fn lemma_key_order(s: Seq<FieldView>, o: Seq<FieldView>)
    requires
        model::distinct_fields(s),
        is_key_order(s, o),
    ensures
        o == key_order(s),
{
    broadcast use vstd::seq_lib::group_to_multiset_ensures;

    let c = key_order(s);
    assert(is_key_order(s, c));
    assert forall|x: FieldView, y: FieldView|
        o.contains(x) && o.contains(y) && #[trigger] x.is(y.name, y.measurement) implies x == y by {
        assert(o.to_multiset().count(x) > 0);
        assert(o.to_multiset().count(y) > 0);
        assert(s.contains(x));
        assert(s.contains(y));
        let i = choose|i: int| 0 <= i < s.len() && s[i] == x;
        let j = choose|j: int| 0 <= j < s.len() && s[j] == y;
        assert(s[i].is(s[j].name, s[j].measurement));
    }
    lemma_order_unique(o, c);
}

fn not_after(a: &FieldInfo, b: &FieldInfo) -> (r: bool)
    ensures
        r == field_not_after(a@, b@),
{
    if a.name == b.name {
        text::text_not_after(a.measurement.as_str(), b.measurement.as_str())
    } else {
        text::text_not_after(a.name.as_str(), b.name.as_str())
    }
}

/// Where the inactive fields stand, in the order of their names and measurements.
pub fn inactive_places(fields: &Vec<FieldInfo>, added: u64, now: i64) -> (r: Vec<usize>)
    ensures
        forall|k: int| 0 <= k < r@.len() ==> #[trigger] r@[k] < fields@.len(),
        is_key_order(
            cache::field_views(fields@).filter(
                model::inactive_field(added as int, now as int),
            ),
            picked(cache::field_views(fields@), r@),
        ),
{
    broadcast use vstd::seq_lib::group_to_multiset_ensures;

    let ghost all = cache::field_views(fields@);
    let ghost q = model::inactive_field(added as int, now as int);
    let mut places: Vec<usize> = Vec::new();
    let mut i: usize = 0;
    assert(picked(all, places@) =~= all.take(0).filter(q)) by {
        reveal(Seq::filter);
    }
    while i < fields.len()
        invariant
            i <= fields@.len(),
            all == cache::field_views(fields@),
            q == model::inactive_field(added as int, now as int),
            forall|k: int| 0 <= k < places@.len() ==> #[trigger] places@[k] < fields@.len(),
            is_key_order(all.take(i as int).filter(q), picked(all, places@)),
        decreases fields.len() - i,
    {
        let ghost before = picked(all, places@);
        proof {
            reveal(Seq::filter);
            fold::lemma_prefix(all, i as int);
            assert(all[i as int] == fields@[i as int]@);
        }
        if fields[i].is_inactive_at(added, now) {
            let mut at: usize = 0;
            while at < places.len() && not_after(&fields[places[at]], &fields[i])
                invariant
                    i < fields@.len(),
                    at <= places@.len(),
                    all == cache::field_views(fields@),
                    before == picked(all, places@),
                    forall|k: int|
                        0 <= k < places@.len() ==> #[trigger] places@[k] < fields@.len(),
                    forall|k: int|
                        0 <= k < at ==> field_not_after(#[trigger] before[k], all[i as int]),
                ensures
                    at <= places@.len(),
                    forall|k: int|
                        0 <= k < at ==> field_not_after(#[trigger] before[k], all[i as int]),
                    at < places@.len() ==> !field_not_after(before[at as int], all[i as int]),
                decreases places.len() - at,
            {
                assert(before[at as int] == fields@[places@[at as int] as int]@);
                assert(all[i as int] == fields@[i as int]@);
                at = at + 1;
            }
            proof {
                if at < places@.len() {
                    assert(before[at as int] == fields@[places@[at as int] as int]@);
                }
            }
            let ghost x = all[i as int];
            places.insert(at, i);
            let ghost after = picked(all, places@);
            proof {
                assert(after =~= before.insert(at as int, x));
                vstd::seq_lib::to_multiset_insert(before, at as int, x);
                vstd::seq_lib::to_multiset_build(all.take(i as int).filter(q), x);
                lemma_inserted(before, at as int, x);
            }
        }
        i = i + 1;
    }
    assert(all.take(i as int) =~= all);
    places
}

} // verus!
