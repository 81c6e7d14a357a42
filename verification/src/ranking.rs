//! Fields ranked by how often they changed.

use vstd::prelude::*;

use crate::cache::{UidInfo, ValueCache};
use crate::cache;
use crate::fold;
use crate::model::{CacheView, FieldView, UidView};

verus! {

/// A field name and how often the field changed.
pub type EntryView = (Seq<char>, nat);

/// The entries with this count.
pub open spec fn counted(c: nat) -> spec_fn(EntryView) -> bool {
    |e: EntryView| e.1 == c
}

/// No entry has a greater count than one behind it.
pub open spec fn ascending(o: Seq<EntryView>) -> bool {
    forall|i: int, j: int| 0 <= i < j < o.len() ==> (#[trigger] o[i]).1 <= (#[trigger] o[j]).1
}

/// `o` holds the entries of `s` by ascending count; those with the same count stay in order.
pub open spec fn is_ranking(s: Seq<EntryView>, o: Seq<EntryView>) -> bool {
    &&& o.len() == s.len()
    &&& ascending(o)
    &&& forall|c: nat| o.filter(#[trigger] counted(c)) == s.filter(counted(c))
}

/// The entries of `s` by ascending count; those with the same count stay in order.
pub open spec fn ranking(s: Seq<EntryView>) -> Seq<EntryView> {
    choose|o: Seq<EntryView>| is_ranking(s, o)
}

/// The entries of the fields of a uid.
pub open spec fn entries_of() -> spec_fn(UidView) -> Seq<EntryView> {
    |u: UidView| u.fields.map_values(|f: FieldView| (f.name, f.changed_count))
}

impl CacheView {
    /// The entries of all fields of all uids.
    pub open spec fn entries(self) -> Seq<EntryView> {
        fold::concat(self.uids, entries_of())
    }
}

/// The model of the entries.
pub open spec fn entry_views(entries: Seq<(String, usize)>) -> Seq<EntryView> {
    entries.map_values(|e: (String, usize)| (e.0@, e.1 as nat))
}

/// The entries at these places.
pub open spec fn entries_at(entries: Seq<EntryView>, places: Seq<usize>) -> Seq<EntryView> {
    places.map_values(|i: usize| entries[i as int])
}

// ---------------------------------------------------------------- there is one ranking

proof fn lemma_filter_first(s: Seq<EntryView>, p: spec_fn(EntryView) -> bool)
    requires
        s.len() > 0,
    ensures
        p(s[0]) ==> s.filter(p) == seq![s[0]] + s.skip(1).filter(p),
        !p(s[0]) ==> s.filter(p) == s.skip(1).filter(p),
{
    assert(s =~= seq![s[0]] + s.skip(1));
    s.skip(1).lemma_filter_prepend(s[0], p);
    if !p(s[0]) {
        assert(s.filter(p) =~= s.skip(1).filter(p));
    }
}

proof fn lemma_filter_member(s: Seq<EntryView>, p: spec_fn(EntryView) -> bool)
    requires
        s.filter(p).len() > 0,
    ensures
        exists|i: int| 0 <= i < s.len() && #[trigger] s[i] == s.filter(p)[0] && p(s[i]),
    decreases s.len(),
{
    reveal(Seq::filter);
    if s.len() > 0 {
        if s.drop_last().filter(p).len() > 0 {
            lemma_filter_member(s.drop_last(), p);
            let i = choose|i: int|
                0 <= i < s.drop_last().len() && #[trigger] s.drop_last()[i]
                    == s.drop_last().filter(p)[0] && p(s.drop_last()[i]);
            assert(s[i] == s.filter(p)[0]);
        } else {
            assert(s[s.len() - 1] == s.filter(p)[0]);
        }
    }
}

/// The least count of `b` is not over that of `a`, where both have the same entries.
proof fn lemma_least_count(a: Seq<EntryView>, b: Seq<EntryView>)
    requires
        ascending(b),
        a.len() > 0,
        a.filter(counted(a[0].1)) == b.filter(counted(a[0].1)),
    ensures
        b.len() > 0,
        b[0].1 <= a[0].1,
        a.filter(counted(a[0].1))[0] == a[0],
{
    let p = counted(a[0].1);
    lemma_filter_first(a, p);
    assert(a.filter(p)[0] == a[0]);
    lemma_filter_member(b, p);
    let i = choose|i: int| 0 <= i < b.len() && #[trigger] b[i] == b.filter(p)[0] && p(b[i]);
    assert(b[i].1 == a[0].1);
    if i > 0 {
        assert(b[0].1 <= b[i].1);
    }
}

proof fn lemma_same_tails(a: Seq<EntryView>, b: Seq<EntryView>, c: nat)
    requires
        a.len() > 0,
        b.len() > 0,
        a[0] == b[0],
        a.filter(counted(c)) == b.filter(counted(c)),
    ensures
        a.skip(1).filter(counted(c)) == b.skip(1).filter(counted(c)),
{
    let p = counted(c);
    lemma_filter_first(a, p);
    lemma_filter_first(b, p);
    if p(a[0]) {
        assert(a.skip(1).filter(p) =~= a.filter(p).skip(1));
        assert(b.skip(1).filter(p) =~= b.filter(p).skip(1));
    }
}

proof fn lemma_ranking_unique(a: Seq<EntryView>, b: Seq<EntryView>)
    requires
        ascending(a),
        ascending(b),
        forall|c: nat| a.filter(#[trigger] counted(c)) == b.filter(counted(c)),
        a.len() == b.len(),
    ensures
        a == b,
    decreases a.len(),
{
    if a.len() == 0 {
        assert(a =~= b);
    } else {
        assert(a.filter(counted(a[0].1)) == b.filter(counted(a[0].1)));
        assert(a.filter(counted(b[0].1)) == b.filter(counted(b[0].1)));
        lemma_least_count(a, b);
        lemma_least_count(b, a);
        assert(a[0] == b[0]);
        let ta = a.skip(1);
        let tb = b.skip(1);
        assert(ascending(ta)) by {
            assert forall|i: int, j: int| 0 <= i < j < ta.len() implies (#[trigger] ta[i]).1 <= (
            #[trigger] ta[j]).1 by {
                assert(a[i + 1].1 <= a[j + 1].1);
            }
        }
        assert(ascending(tb)) by {
            assert forall|i: int, j: int| 0 <= i < j < tb.len() implies (#[trigger] tb[i]).1 <= (
            #[trigger] tb[j]).1 by {
                assert(b[i + 1].1 <= b[j + 1].1);
            }
        }
        assert forall|c: nat| ta.filter(#[trigger] counted(c)) == tb.filter(counted(c)) by {
            lemma_same_tails(a, b, c);
        }
        lemma_ranking_unique(ta, tb);
        assert(a =~= seq![a[0]] + ta);
        assert(b =~= seq![b[0]] + tb);
    }
}

/// There is only one ranking.
pub proof fn lemma_ranking(s: Seq<EntryView>, o: Seq<EntryView>)
    requires
        is_ranking(s, o),
    ensures
        o == ranking(s),
{
    let r = ranking(s);
    assert(is_ranking(s, r));
    assert forall|c: nat| o.filter(#[trigger] counted(c)) == r.filter(counted(c)) by {}
    lemma_ranking_unique(o, r);
}

// ---------------------------------------------------------------- there is a ranking

/// Where an entry goes in: behind all that do not have a greater count.
proof fn lemma_rank_place(o: Seq<EntryView>, x: EntryView) -> (at: int)
    requires
        ascending(o),
    ensures
        0 <= at <= o.len(),
        forall|k: int| 0 <= k < at ==> (#[trigger] o[k]).1 <= x.1,
        forall|k: int| at <= k < o.len() ==> (#[trigger] o[k]).1 > x.1,
    decreases o.len(),
{
    if o.len() == 0 {
        0
    } else if o.last().1 <= x.1 {
        assert forall|k: int| 0 <= k < o.len() implies (#[trigger] o[k]).1 <= x.1 by {
            if k < o.len() - 1 {
                assert(o[k].1 <= o[o.len() - 1].1);
            }
        }
        o.len() as int
    } else {
        let t = o.drop_last();
        let at = lemma_rank_place(t, x);
        assert forall|k: int| 0 <= k < at implies (#[trigger] o[k]).1 <= x.1 by {
            assert(t[k] == o[k]);
        }
        assert forall|k: int| at <= k < o.len() implies (#[trigger] o[k]).1 > x.1 by {
            if k < t.len() {
                assert(t[k] == o[k]);
            }
        }
        at
    }
}

proof fn lemma_ranked_in(t: Seq<EntryView>, o: Seq<EntryView>, x: EntryView, at: int)
    requires
        is_ranking(t, o),
        0 <= at <= o.len(),
        forall|k: int| 0 <= k < at ==> (#[trigger] o[k]).1 <= x.1,
        forall|k: int| at <= k < o.len() ==> (#[trigger] o[k]).1 > x.1,
    ensures
        is_ranking(t.push(x), o.insert(at, x)),
{
    let after = o.insert(at, x);
    let head = o.take(at);
    let tail = o.skip(at);
    assert forall|i: int, j: int| 0 <= i < j < after.len() implies (#[trigger] after[i]).1 <= (
    #[trigger] after[j]).1 by {
        let k = if i < at {
            i
        } else {
            i - 1
        };
        let l = if j < at {
            j
        } else {
            j - 1
        };
        if i != at && j != at {
            assert(o[k].1 <= o[l].1);
        }
    }
    assert forall|c: nat| after.filter(#[trigger] counted(c)) == t.push(x).filter(counted(c)) by {
        let p = counted(c);
        assert(o.filter(p) == t.filter(p));
        assert(o =~= head + tail);
        assert(after =~= head.push(x) + tail);
        Seq::filter_distributes_over_add(head, tail, p);
        Seq::filter_distributes_over_add(head.push(x), tail, p);
        head.lemma_filter_push(x, p);
        t.lemma_filter_push(x, p);
        if x.1 == c {
            assert forall|i: int| 0 <= i < tail.len() implies !p(#[trigger] tail[i]) by {
                assert(tail[i] == o[at + i]);
            }
            lemma_filter_none(tail, p);
            assert(after.filter(p) =~= t.push(x).filter(p));
        }
    }
}

/// Every sequence of entries can be ranked, and [`ranking`] is how.
pub proof fn law_ranking(s: Seq<EntryView>)
    ensures
        is_ranking(s, ranking(s)),
    decreases s.len(),
{
    if s.len() == 0 {
        assert(is_ranking(s, s));
    } else {
        let t = s.drop_last();
        law_ranking(t);
        let o = ranking(t);
        let at = lemma_rank_place(o, s.last());
        lemma_ranked_in(t, o, s.last(), at);
        assert(s =~= t.push(s.last()));
        assert(is_ranking(s, o.insert(at, s.last())));
    }
}

// ---------------------------------------------------------------- ranking

proof fn lemma_filter_none(s: Seq<EntryView>, p: spec_fn(EntryView) -> bool)
    requires
        forall|i: int| 0 <= i < s.len() ==> !p(#[trigger] s[i]),
    ensures
        s.filter(p) == Seq::<EntryView>::empty(),
    decreases s.len(),
{
    reveal(Seq::filter);
    if s.len() > 0 {
        let t = s.drop_last();
        assert forall|i: int| 0 <= i < t.len() implies !p(#[trigger] t[i]) by {
            assert(t[i] == s[i]);
        }
        lemma_filter_none(t, p);
        assert(!p(s[s.len() - 1]));
    }
    assert(s.filter(p) =~= Seq::<EntryView>::empty());
}

/// One more entry of the left part goes to the end of what is merged.
proof fn lemma_merge_left(
    out: Seq<EntryView>,
    left: Seq<EntryView>,
    right: Seq<EntryView>,
    i: int,
    j: int,
)
    requires
        0 <= i < left.len(),
        0 <= j <= right.len(),
        forall|k: int| 0 <= k < j ==> (#[trigger] right[k]).1 < left[i].1,
        forall|c: nat|
            out.filter(#[trigger] counted(c)) == left.take(i).filter(counted(c)) + right.take(
                j,
            ).filter(counted(c)),
    ensures
        forall|c: nat|
            out.push(left[i]).filter(#[trigger] counted(c)) == left.take(i + 1).filter(counted(c))
                + right.take(j).filter(counted(c)),
{
    fold::lemma_prefix(left, i);
    assert forall|c: nat|
        out.push(left[i]).filter(#[trigger] counted(c)) == left.take(i + 1).filter(counted(c))
            + right.take(j).filter(counted(c)) by {
        reveal(Seq::filter);
        let p = counted(c);
        assert(out.push(left[i]).drop_last() =~= out);
        assert(out.filter(p) == left.take(i).filter(p) + right.take(j).filter(p));
        if left[i].1 == c {
            lemma_filter_none(right.take(j), p);
            assert(out.push(left[i]).filter(p) =~= left.take(i + 1).filter(p) + right.take(
                j,
            ).filter(p));
        }
    }
}

/// One more entry of the right part goes to the end of what is merged.
proof fn lemma_merge_right(
    out: Seq<EntryView>,
    left: Seq<EntryView>,
    right: Seq<EntryView>,
    i: int,
    j: int,
)
    requires
        0 <= i <= left.len(),
        0 <= j < right.len(),
        forall|c: nat|
            out.filter(#[trigger] counted(c)) == left.take(i).filter(counted(c)) + right.take(
                j,
            ).filter(counted(c)),
    ensures
        forall|c: nat|
            out.push(right[j]).filter(#[trigger] counted(c)) == left.take(i).filter(counted(c))
                + right.take(j + 1).filter(counted(c)),
{
    fold::lemma_prefix(right, j);
    assert forall|c: nat|
        out.push(right[j]).filter(#[trigger] counted(c)) == left.take(i).filter(counted(c))
            + right.take(j + 1).filter(counted(c)) by {
        reveal(Seq::filter);
        let p = counted(c);
        assert(out.push(right[j]).drop_last() =~= out);
        assert(out.filter(p) == left.take(i).filter(p) + right.take(j).filter(p));
        assert(out.push(right[j]).filter(p) =~= left.take(i).filter(p) + right.take(j + 1).filter(
            p,
        ));
    }
}

/// Merges two rankings, the entries of the left one before those of the right one with the same
/// count.
fn merge(entries: &Vec<(String, usize)>, left: &Vec<usize>, right: &Vec<usize>) -> (r: Vec<usize>)
    requires
        forall|k: int| 0 <= k < left@.len() ==> #[trigger] left@[k] < entries@.len(),
        forall|k: int| 0 <= k < right@.len() ==> #[trigger] right@[k] < entries@.len(),
        ascending(entries_at(entry_views(entries@), left@)),
        ascending(entries_at(entry_views(entries@), right@)),
        left@.len() + right@.len() <= usize::MAX,
    ensures
        forall|k: int| 0 <= k < r@.len() ==> #[trigger] r@[k] < entries@.len(),
        is_ranking(
            entries_at(entry_views(entries@), left@) + entries_at(entry_views(entries@), right@),
            entries_at(entry_views(entries@), r@),
        ),
{
    let ghost all = entry_views(entries@);
    let ghost ls = entries_at(all, left@);
    let ghost rs = entries_at(all, right@);
    let mut out: Vec<usize> = Vec::new();
    let mut i: usize = 0;
    let mut j: usize = 0;
    proof {
        assert forall|c: nat|
            entries_at(all, out@).filter(#[trigger] counted(c)) == ls.take(0).filter(counted(c))
                + rs.take(0).filter(counted(c)) by {
            reveal(Seq::filter);
            assert(entries_at(all, out@) =~= Seq::<EntryView>::empty());
            assert(ls.take(0).filter(counted(c)) + rs.take(0).filter(counted(c))
                =~= entries_at(all, out@).filter(counted(c)));
        }
    }
    while i < left.len() || j < right.len()
        invariant
            i <= left@.len(),
            j <= right@.len(),
            left@.len() + right@.len() <= usize::MAX,
            all == entry_views(entries@),
            ls == entries_at(all, left@),
            rs == entries_at(all, right@),
            ascending(ls),
            ascending(rs),
            forall|k: int| 0 <= k < left@.len() ==> #[trigger] left@[k] < entries@.len(),
            forall|k: int| 0 <= k < right@.len() ==> #[trigger] right@[k] < entries@.len(),
            forall|k: int| 0 <= k < out@.len() ==> #[trigger] out@[k] < entries@.len(),
            out@.len() == i + j,
            ascending(entries_at(all, out@)),
            forall|k: int|
                0 <= k < out@.len() && i < ls.len() ==> (#[trigger] entries_at(all, out@)[k]).1
                    <= ls[i as int].1,
            forall|k: int|
                0 <= k < out@.len() && j < rs.len() ==> (#[trigger] entries_at(all, out@)[k]).1
                    <= rs[j as int].1,
            forall|k: int| 0 <= k < j && i < ls.len() ==> (#[trigger] rs[k]).1 < ls[i as int].1,
            forall|c: nat|
                entries_at(all, out@).filter(#[trigger] counted(c)) == ls.take(i as int).filter(
                    counted(c),
                ) + rs.take(j as int).filter(counted(c)),
        decreases left.len() - i + right.len() - j,
    {
        let ghost before = entries_at(all, out@);
        if i < left.len() {
            assert(ls[i as int] == all[left@[i as int] as int]);
            assert(all[left@[i as int] as int].1 == entries@[left@[i as int] as int].1);
        }
        if j < right.len() {
            assert(rs[j as int] == all[right@[j as int] as int]);
            assert(all[right@[j as int] as int].1 == entries@[right@[j as int] as int].1);
        }
        let take_left: bool = if i == left.len() {
            false
        } else if j == right.len() {
            true
        } else {
            entries[left[i]].1 <= entries[right[j]].1
        };
        if take_left {
            proof {
                lemma_merge_left(before, ls, rs, i as int, j as int);
            }
            out.push(left[i]);
            assert(entries_at(all, out@) =~= before.push(ls[i as int]));
            i = i + 1;
        } else {
            proof {
                lemma_merge_right(before, ls, rs, i as int, j as int);
            }
            out.push(right[j]);
            assert(entries_at(all, out@) =~= before.push(rs[j as int]));
            j = j + 1;
        }
    }
    proof {
        assert(ls.take(i as int) =~= ls);
        assert(rs.take(j as int) =~= rs);
        assert forall|c: nat|
            entries_at(all, out@).filter(#[trigger] counted(c)) == (ls + rs).filter(
                counted(c),
            ) by {
            Seq::filter_distributes_over_add(ls, rs, counted(c));
        }
    }
    out
}

/// Ranks the entries from `lo` up to `hi`.
fn rank_range(entries: &Vec<(String, usize)>, lo: usize, hi: usize) -> (r: Vec<usize>)
    requires
        lo <= hi <= entries@.len(),
    ensures
        forall|k: int| 0 <= k < r@.len() ==> #[trigger] r@[k] < entries@.len(),
        is_ranking(
            entry_views(entries@).subrange(lo as int, hi as int),
            entries_at(entry_views(entries@), r@),
        ),
    decreases hi - lo,
{
    let ghost all = entry_views(entries@);
    let ghost part = all.subrange(lo as int, hi as int);
    if hi - lo <= 1 {
        let mut r: Vec<usize> = Vec::new();
        if lo < hi {
            r.push(lo);
        }
        assert(entries_at(all, r@) =~= part);
        return r;
    }
    let mid: usize = lo + (hi - lo) / 2;
    let left: Vec<usize> = rank_range(entries, lo, mid);
    let right: Vec<usize> = rank_range(entries, mid, hi);
    let ghost ls = entries_at(all, left@);
    let ghost rs = entries_at(all, right@);
    let r: Vec<usize> = merge(entries, &left, &right);
    proof {
        let a = all.subrange(lo as int, mid as int);
        let b = all.subrange(mid as int, hi as int);
        assert(part =~= a + b);
        assert forall|c: nat|
            entries_at(all, r@).filter(#[trigger] counted(c)) == part.filter(counted(c)) by {
            Seq::filter_distributes_over_add(a, b, counted(c));
            Seq::filter_distributes_over_add(ls, rs, counted(c));
            assert(entries_at(all, r@).filter(counted(c)) == (ls + rs).filter(counted(c)));
            assert(ls.filter(counted(c)) == a.filter(counted(c)));
            assert(rs.filter(counted(c)) == b.filter(counted(c)));
        }
    }
    r
}

impl ValueCache {
    /// The names and change counts of all fields of all uids.
    fn changed_counts(&self) -> (r: Vec<(String, usize)>)
        ensures
            entry_views(r@) == self@.entries(),
    {
        let uids: &Vec<UidInfo> = self.uids();
        let ghost all = self@.uids;
        let ghost f = entries_of();
        let mut entries: Vec<(String, usize)> = Vec::new();
        let mut i: usize = 0;
        assert(entry_views(entries@) =~= fold::concat(all.take(0), f));
        while i < uids.len()
            invariant
                i <= uids@.len(),
                all == cache::uid_views(uids@),
                f == entries_of(),
                entry_views(entries@) == fold::concat(all.take(i as int), f),
            decreases uids.len() - i,
        {
            let ghost start = entry_views(entries@);
            let ghost own = f(all[i as int]);
            proof {
                fold::lemma_prefix(all, i as int);
                assert(all[i as int] == uids@[i as int]@);
                assert(start + own.take(0) =~= start);
            }
            let mut k: usize = 0;
            while k < uids[i].fields.len()
                invariant
                    i < uids@.len(),
                    k <= uids@[i as int].fields@.len(),
                    all == cache::uid_views(uids@),
                    f == entries_of(),
                    own == f(all[i as int]),
                    entry_views(entries@) == start + own.take(k as int),
                decreases uids[i as int].fields.len() - k,
            {
                let ghost before = entries@;
                entries.push((uids[i].fields[k].name.clone(), uids[i].fields[k].changed_count));
                proof {
                    fold::lemma_prefix(own, k as int);
                    assert(own[k as int] == (
                        uids@[i as int].fields@[k as int].name@,
                        uids@[i as int].fields@[k as int].changed_count as nat,
                    ));
                    assert(entry_views(entries@) =~= entry_views(before).push(own[k as int]));
                    assert(entry_views(entries@) =~= start + own.take(k + 1));
                }
                k = k + 1;
            }
            assert(own.take(k as int) =~= own);
            i = i + 1;
        }
        assert(all.take(i as int) =~= all);
        entries
    }

    /// The names and change counts of the `count` fields that changed least, least first. Fields
    /// that changed equally often stand in the order in which they were first seen.
    pub fn least_changed(&self, count: usize) -> (r: Vec<(String, usize)>)
        ensures
            entry_views(r@) == ranking(self@.entries()).take(
                if count < self@.entries().len() {
                    count as int
                } else {
                    self@.entries().len() as int
                },
            ),
    {
        let entries: Vec<(String, usize)> = self.changed_counts();
        let places: Vec<usize> = rank_range(&entries, 0, entries.len());
        let ghost all = entry_views(entries@);
        let ghost ranked = entries_at(all, places@);
        proof {
            assert(all.subrange(0, all.len() as int) =~= all);
            lemma_ranking(all, ranked);
        }
        let mut least: Vec<(String, usize)> = Vec::new();
        let mut i: usize = 0;
        assert(entry_views(least@) =~= ranked.take(0));
        while i < count && i < places.len()
            invariant
                i <= count,
                i <= places@.len(),
                all == entry_views(entries@),
                ranked == entries_at(all, places@),
                forall|k: int| 0 <= k < places@.len() ==> #[trigger] places@[k] < entries@.len(),
                entry_views(least@) == ranked.take(i as int),
            decreases places.len() - i,
        {
            let ghost before = least@;
            let at: usize = places[i];
            least.push((entries[at].0.clone(), entries[at].1));
            proof {
                fold::lemma_prefix(ranked, i as int);
                assert(entry_views(least@) =~= entry_views(before).push(ranked[i as int]));
            }
            i = i + 1;
        }
        least
    }
}

} // verus!
