//! Why a scan may cut its candidates back to the newest records as it goes:
//! cutting early never changes which records are newest in the end.
use vstd::prelude::*;
use vstd::multiset::Multiset;
use crate::order::{str_lt, lemma_str_lt_asym, lemma_str_lt_trans, lemma_str_lt_total};
use super::{RecordView, view_precedes, views_ranked, newest};

verus! {

broadcast use vstd::seq_lib::group_to_multiset_ensures;

/// Any two records are ordered one way or the other.
pub proof fn lemma_view_total(a: RecordView, b: RecordView)
    ensures
        view_precedes(a, b) || view_precedes(b, a),
{
    lemma_str_lt_total(a.workspace_id, b.workspace_id);
    lemma_str_lt_total(a.service, b.service);
}

/// The presentation order is transitive.
pub proof fn lemma_view_trans(a: RecordView, b: RecordView, c: RecordView)
    requires
        view_precedes(a, b),
        view_precedes(b, c),
    ensures
        view_precedes(a, c),
{
    if str_lt(a.workspace_id, b.workspace_id) && str_lt(b.workspace_id, c.workspace_id) {
        lemma_str_lt_trans(a.workspace_id, b.workspace_id, c.workspace_id);
    }
    if str_lt(a.service, b.service) && str_lt(b.service, c.service) {
        lemma_str_lt_trans(a.service, b.service, c.service);
    }
}

/// `x` put into a ranked sequence at its place.
pub open spec fn insert_ranked(s: Seq<RecordView>, x: RecordView) -> Seq<RecordView>
    decreases s.len(),
{
    if s.len() == 0 {
        seq![x]
    } else if view_precedes(x, s[0]) {
        seq![x] + s
    } else {
        seq![s[0]] + insert_ranked(s.drop_first(), x)
    }
}

proof fn lemma_insert_ranked(s: Seq<RecordView>, x: RecordView)
    requires
        views_ranked(s),
    ensures
        views_ranked(insert_ranked(s, x)),
        insert_ranked(s, x).to_multiset() == s.to_multiset().insert(x),
    decreases s.len(),
{
    broadcast use vstd::multiset::group_multiset_axioms;

    if s.len() == 0 {
        assert(seq![x] =~= Seq::<RecordView>::empty().push(x));
        assert(Seq::<RecordView>::empty().to_multiset() =~= Multiset::empty());
    } else if view_precedes(x, s[0]) {
        let t = seq![x] + s;
        assert forall|i: int, j: int| #![trigger t[i], t[j]] 0 <= i < j < t.len() implies view_precedes(
            t[i],
            t[j],
        ) by {
            if i == 0 {
                if j > 1 {
                    assert(view_precedes(s[0], s[j - 1]));
                    lemma_view_trans(x, s[0], s[j - 1]);
                }
            } else {
                assert(t[i] == s[i - 1] && t[j] == s[j - 1]);
            }
        }
        assert(t == s.insert(0, x));
    } else {
        lemma_view_total(x, s[0]);
        let rest = s.drop_first();
        assert forall|i: int, j: int| #![trigger rest[i], rest[j]] 0 <= i < j < rest.len() implies view_precedes(
            rest[i],
            rest[j],
        ) by {
            assert(rest[i] == s[i + 1] && rest[j] == s[j + 1]);
        }
        lemma_insert_ranked(rest, x);
        let r = insert_ranked(rest, x);
        let t = seq![s[0]] + r;
        assert forall|i: int, j: int| #![trigger t[i], t[j]] 0 <= i < j < t.len() implies view_precedes(
            t[i],
            t[j],
        ) by {
            if i == 0 {
                let y = r[j - 1];
                assert(r.contains(y));
                assert(r.to_multiset().count(y) > 0);
                if y == x {
                } else {
                    assert(rest.to_multiset().count(y) > 0);
                    assert(rest.contains(y));
                    let k = choose|k: int| 0 <= k < rest.len() && rest[k] == y;
                    assert(s[k + 1] == y);
                }
            } else {
                assert(t[i] == r[i - 1] && t[j] == r[j - 1]);
            }
        }
        assert(s =~= seq![s[0]] + rest);
        vstd::seq_lib::lemma_multiset_commutative(seq![s[0]], rest);
        vstd::seq_lib::lemma_multiset_commutative(seq![s[0]], r);
        assert(t.to_multiset() =~= s.to_multiset().insert(x));
    }
}

/// Every list of records has an arrangement in presentation order.
pub proof fn lemma_ranked_arrangement(v: Seq<RecordView>)
    ensures
        exists|s: Seq<RecordView>| #[trigger] views_ranked(s) && s.to_multiset() == v.to_multiset(),
    decreases v.len(),
{
    broadcast use vstd::multiset::group_multiset_axioms;

    if v.len() == 0 {
        let s = Seq::<RecordView>::empty();
        assert(views_ranked(s));
        assert(s.to_multiset() == v.to_multiset()) by {
            assert(v =~= s);
        }
    } else {
        lemma_ranked_arrangement(v.drop_last());
        let s0 = choose|s: Seq<RecordView>|
            #[trigger] views_ranked(s) && s.to_multiset() == v.drop_last().to_multiset();
        lemma_insert_ranked(s0, v.last());
        let s = insert_ranked(s0, v.last());
        assert(v =~= v.drop_last().push(v.last()));
        assert(views_ranked(s) && s.to_multiset() == v.to_multiset());
    }
}

/// A list whose elements all occur at least as often in another is no
/// longer than it.
proof fn lemma_sub_multiset_len(a: Seq<RecordView>, b: Seq<RecordView>)
    requires
        forall|x: RecordView| a.to_multiset().count(x) <= b.to_multiset().count(x),
    ensures
        a.len() <= b.len(),
    decreases a.len(),
{
    broadcast use vstd::multiset::group_multiset_axioms;

    if a.len() > 0 {
        let x = a.last();
        let a0 = a.drop_last();
        assert(a =~= a0.push(x));
        assert(a.to_multiset().count(x) > 0);
        assert(b.to_multiset().count(x) > 0);
        assert(b.contains(x));
        let j = choose|j: int| 0 <= j < b.len() && b[j] == x;
        let b0 = b.remove(j);
        assert forall|y: RecordView| a0.to_multiset().count(y) <= b0.to_multiset().count(y) by {
            assert(a.to_multiset().count(y) <= b.to_multiset().count(y));
        }
        lemma_sub_multiset_len(a0, b0);
    }
}

/// In the case where a later candidate `y` was cut early: every record kept
/// at the end still comes before it.
proof fn lemma_kept_before_cut(
    s1: Seq<RecordView>,
    s2: Seq<RecordView>,
    b: Seq<RecordView>,
    n: nat,
    i: int,
    y: RecordView,
)
    requires
        views_ranked(s1),
        views_ranked(s2),
        n < s1.len(),
        s2.to_multiset() == (s1.take(n as int) + b).to_multiset(),
        0 <= i < n,
        n <= s2.len(),
        s1.skip(n as int).contains(y),
    ensures
        view_precedes(s2[i], y),
{
    broadcast use vstd::multiset::group_multiset_axioms;

    let r1 = s1.take(n as int);
    let qy = choose|q: int| 0 <= q < s1.skip(n as int).len() && s1.skip(n as int)[q] == y;
    assert(s1[n + qy] == y);
    if exists|p: int| i <= p < s2.len() && r1.contains(#[trigger] s2[p]) {
        let p = choose|p: int| i <= p < s2.len() && r1.contains(#[trigger] s2[p]);
        let z = s2[p];
        let qz = choose|q: int| 0 <= q < r1.len() && r1[q] == z;
        assert(s1[qz] == z);
        assert(view_precedes(z, y));
        if p == i {
            lemma_view_total(z, z);
        } else {
            assert(view_precedes(s2[i], s2[p]));
        }
        lemma_view_trans(s2[i], z, y);
    } else {
        let front = s2.take(i);
        let back = s2.skip(i);
        assert(s2 =~= front + back);
        vstd::seq_lib::lemma_multiset_commutative(front, back);
        vstd::seq_lib::lemma_multiset_commutative(r1, b);
        assert(s2.to_multiset() == front.to_multiset().add(back.to_multiset()));
        assert(s2.to_multiset() == r1.to_multiset().add(b.to_multiset()));
        assert forall|v: RecordView| r1.to_multiset().count(v) <= front.to_multiset().count(v) by {
            assert(s2.to_multiset().count(v) == front.to_multiset().count(v) + back.to_multiset().count(v));
            assert(s2.to_multiset().count(v) == r1.to_multiset().count(v) + b.to_multiset().count(v));
            if r1.to_multiset().count(v) > 0 {
                assert(r1.contains(v));
                if back.to_multiset().count(v) > 0 {
                    assert(back.contains(v));
                    let k = choose|k: int| 0 <= k < back.len() && back[k] == v;
                    assert(s2[i + k] == v);
                    assert(r1.contains(s2[i + k]));
                }
            }
        }
        lemma_sub_multiset_len(r1, front);
        assert(false);
    }
}

/// Cutting the candidates back to the newest `n` before more records
/// arrive leaves the same newest `n` as keeping every candidate and cutting
/// once at the end: if `kept` is the newest `n` of `earlier`, then the newest
/// `n` of `kept` and `later` are the newest `n` of `earlier` and `later`.
pub proof fn lemma_cut_early(
    earlier: Seq<RecordView>,
    kept: Seq<RecordView>,
    later: Seq<RecordView>,
    result: Seq<RecordView>,
    n: nat,
)
    requires
        newest(kept, earlier, n),
        newest(result, kept + later, n),
    ensures
        newest(result, earlier + later, n),
{
    broadcast use vstd::multiset::group_multiset_axioms;

    let s1 = choose|s: Seq<RecordView>|
        #[trigger] views_ranked(s) && s.to_multiset() == earlier.to_multiset() && kept == s.take(
            if n < s.len() {
                n as int
            } else {
                s.len() as int
            },
        );
    let k1 = if n < s1.len() {
        n as int
    } else {
        s1.len() as int
    };
    let s2 = choose|s: Seq<RecordView>|
        #[trigger] views_ranked(s) && s.to_multiset() == (kept + later).to_multiset() && result
            == s.take(
            if n < s.len() {
                n as int
            } else {
                s.len() as int
            },
        );
    let k2 = if n < s2.len() {
        n as int
    } else {
        s2.len() as int
    };
    let d = s1.skip(k1);
    let e = s2.skip(k2);
    lemma_ranked_arrangement(e + d);
    let t = choose|s: Seq<RecordView>| #[trigger] views_ranked(s) && s.to_multiset() == (e + d).to_multiset();
    let s = result + t;
    vstd::seq_lib::to_multiset_len(s2);
    vstd::seq_lib::to_multiset_len(kept + later);
    vstd::seq_lib::to_multiset_len(t);
    vstd::seq_lib::to_multiset_len(e + d);
    assert(kept.len() == k1);
    assert(s2.len() == kept.len() + later.len());
    assert(s1 =~= kept + d);
    assert(s2 =~= result + e);
    vstd::seq_lib::lemma_multiset_commutative(kept, d);
    vstd::seq_lib::lemma_multiset_commutative(result, e);
    vstd::seq_lib::lemma_multiset_commutative(e, d);
    vstd::seq_lib::lemma_multiset_commutative(result, t);
    vstd::seq_lib::lemma_multiset_commutative(kept, later);
    vstd::seq_lib::lemma_multiset_commutative(earlier, later);
    assert(s.to_multiset() == result.to_multiset().add(t.to_multiset()));
    assert(t.to_multiset() == e.to_multiset().add(d.to_multiset()));
    assert(s2.to_multiset() == result.to_multiset().add(e.to_multiset()));
    assert(s1.to_multiset() == kept.to_multiset().add(d.to_multiset()));
    assert((kept + later).to_multiset() == kept.to_multiset().add(later.to_multiset()));
    assert((earlier + later).to_multiset() == earlier.to_multiset().add(later.to_multiset()));
    assert forall|v: RecordView| s.to_multiset().count(v) == (earlier + later).to_multiset().count(v) by {
        assert(s.to_multiset().count(v) == result.to_multiset().count(v) + t.to_multiset().count(v));
        assert(t.to_multiset().count(v) == e.to_multiset().count(v) + d.to_multiset().count(v));
        assert(s2.to_multiset().count(v) == result.to_multiset().count(v) + e.to_multiset().count(v));
        assert(s1.to_multiset().count(v) == kept.to_multiset().count(v) + d.to_multiset().count(v));
        assert((kept + later).to_multiset().count(v) == kept.to_multiset().count(v) + later.to_multiset().count(v));
        assert((earlier + later).to_multiset().count(v) == earlier.to_multiset().count(v) + later.to_multiset().count(v));
    }
    assert(s.to_multiset() =~= (earlier + later).to_multiset());
    assert forall|i: int, j: int| #![trigger s[i], s[j]] 0 <= i < j < s.len() implies view_precedes(
        s[i],
        s[j],
    ) by {
        if j < result.len() {
            assert(s[i] == s2[i] && s[j] == s2[j]);
        } else if i >= result.len() {
            assert(s[i] == t[i - result.len()] && s[j] == t[j - result.len()]);
        } else {
            let y = t[j - result.len()];
            assert(s[j] == y);
            assert(s[i] == s2[i]);
            assert(t.contains(y));
            assert((e + d).to_multiset().count(y) > 0);
            if e.to_multiset().count(y) > 0 {
                assert(e.contains(y));
                let q = choose|q: int| 0 <= q < e.len() && e[q] == y;
                assert(s2[k2 + q] == y);
            } else {
                assert(d.to_multiset().count(y) > 0);
                assert(d.contains(y));
                assert(k1 == n);
                assert(k2 == n);
                lemma_kept_before_cut(s1, s2, later, n, i, y);
            }
        }
    }
    if n <= s2.len() {
        assert(result.len() == n);
        assert(s.take(n as int) =~= result);
        assert(views_ranked(s));
    } else {
        assert(result =~= s2);
        assert(e.len() == 0);
        assert(kept.len() == k1);
        assert(s2.len() == kept.len() + later.len());
        assert(k1 == s1.len());
        assert(d.len() == 0);
        assert(t.len() == 0);
        assert(s =~= result);
        assert(s.take(s.len() as int) =~= result);
        assert(views_ranked(s));
    }
}

} // verus!
