//! Orderings used to present records newest-first, and a verified sort.
//!
//! Strings are ordered lexicographically by Unicode scalar value, which for
//! UTF-8 text is the same order as `String`'s byte-wise `Ord`.
use vstd::prelude::*;
use vstd::multiset::Multiset;

verus! {

/// `a` sorts strictly before `b` lexicographically by scalar value.
pub open spec fn str_lt(a: Seq<char>, b: Seq<char>) -> bool
    decreases a.len(),
{
    if a.len() == 0 {
        b.len() > 0
    } else if b.len() == 0 {
        false
    } else if (a[0] as u32) < (b[0] as u32) {
        true
    } else if (a[0] as u32) == (b[0] as u32) {
        str_lt(a.drop_first(), b.drop_first())
    } else {
        false
    }
}

/// `str_lt` is asymmetric.
pub proof fn lemma_str_lt_asym(a: Seq<char>, b: Seq<char>)
    ensures
        !(str_lt(a, b) && str_lt(b, a)),
    decreases a.len(),
{
    if a.len() > 0 && b.len() > 0 && (a[0] as u32) == (b[0] as u32) {
        lemma_str_lt_asym(a.drop_first(), b.drop_first());
    }
}

/// `str_lt` is negatively transitive: whatever lies strictly between is
/// comparable to one of the ends.
pub proof fn lemma_str_lt_neg_trans(a: Seq<char>, b: Seq<char>, c: Seq<char>)
    requires
        str_lt(a, c),
    ensures
        str_lt(a, b) || str_lt(b, c),
    decreases a.len(),
{
    if a.len() > 0 && b.len() > 0 && c.len() > 0 && (a[0] as u32) == (b[0] as u32) && (b[0]
        as u32) == (c[0] as u32) {
        lemma_str_lt_neg_trans(a.drop_first(), b.drop_first(), c.drop_first());
    }
}

/// Two different strings are ordered one way or the other.
pub proof fn lemma_str_lt_total(a: Seq<char>, b: Seq<char>)
    ensures
        a == b || str_lt(a, b) || str_lt(b, a),
    decreases a.len(),
{
    if a.len() > 0 && b.len() > 0 && (a[0] as u32) == (b[0] as u32) {
        lemma_str_lt_total(a.drop_first(), b.drop_first());
        if a.drop_first() == b.drop_first() {
            vstd::utf8::char_u32_cast(a[0], a[0] as u32);
            vstd::utf8::char_u32_cast(b[0], b[0] as u32);
            assert(a[0] == b[0]);
            assert(a =~= seq![a[0]] + a.drop_first());
            assert(b =~= seq![b[0]] + b.drop_first());
        }
    } else if a.len() == 0 && b.len() == 0 {
        assert(a =~= b);
    }
}

/// `str_lt` is transitive.
pub proof fn lemma_str_lt_trans(a: Seq<char>, b: Seq<char>, c: Seq<char>)
    requires
        str_lt(a, b),
        str_lt(b, c),
    ensures
        str_lt(a, c),
    decreases a.len(),
{
    if a.len() > 0 && b.len() > 0 && c.len() > 0 && (a[0] as u32) == (b[0] as u32) && (b[0]
        as u32) == (c[0] as u32) {
        lemma_str_lt_trans(a.drop_first(), b.drop_first(), c.drop_first());
    }
}

/// Executable form of [`str_lt`].
pub fn str_less(a: &Vec<char>, b: &Vec<char>) -> (r: bool)
    ensures
        r == str_lt(a@, b@),
{
    let mut i: usize = 0;
    assert(a@.subrange(0, a@.len() as int) =~= a@);
    assert(b@.subrange(0, b@.len() as int) =~= b@);
    while i < a.len() && i < b.len()
        invariant
            i <= a.len(),
            i <= b.len(),
            str_lt(a@, b@) == str_lt(a@.subrange(i as int, a@.len() as int), b@.subrange(
                i as int,
                b@.len() as int,
            )),
        decreases a.len() - i,
    {
        let x = a[i] as u32;
        let y = b[i] as u32;
        if x < y {
            return true;
        }
        if x > y {
            return false;
        }
        assert(a@.subrange(i as int, a@.len() as int).drop_first() =~= a@.subrange(
            i + 1,
            a@.len() as int,
        ));
        assert(b@.subrange(i as int, b@.len() as int).drop_first() =~= b@.subrange(
            i + 1,
            b@.len() as int,
        ));
        i = i + 1;
    }
    i < b.len()
}

/// A type whose values can be put in a presentation order: `precedes` is a
/// total preorder (total and transitive).
pub trait Ranked: Sized {
    spec fn precedes(&self, other: &Self) -> bool;

    proof fn lemma_precedes_total(a: &Self, b: &Self)
        ensures
            a.precedes(b) || b.precedes(a),
    ;

    proof fn lemma_precedes_trans(a: &Self, b: &Self, c: &Self)
        requires
            a.precedes(b),
            b.precedes(c),
        ensures
            a.precedes(c),
    ;

    fn precedes_exec(&self, other: &Self) -> (r: bool)
        ensures
            r == self.precedes(other),
    ;
}

/// Every element precedes every later element.
pub open spec fn is_ranked<T: Ranked>(s: Seq<T>) -> bool {
    forall|i: int, j: int| #![trigger s[i], s[j]] 0 <= i < j < s.len() ==> s[i].precedes(&s[j])
}

/// `a` and `b` rank alike: each precedes the other.
pub open spec fn ranks_alike<T: Ranked>(a: T, b: T) -> bool {
    a.precedes(&b) && b.precedes(&a)
}

/// The elements of `s` that rank alike with `x`, in their order in `s`.
pub open spec fn alike<T: Ranked>(s: Seq<T>, x: T) -> Seq<T>
    decreases s.len(),
{
    if s.len() == 0 {
        Seq::empty()
    } else {
        let prev = alike(s.drop_last(), x);
        if ranks_alike(s.last(), x) {
            prev.push(s.last())
        } else {
            prev
        }
    }
}

proof fn lemma_alike_concat<T: Ranked>(a: Seq<T>, b: Seq<T>, x: T)
    ensures
        alike(a + b, x) == alike(a, x) + alike(b, x),
    decreases b.len(),
{
    if b.len() == 0 {
        assert(a + b =~= a);
        assert(alike(a, x) + alike(b, x) =~= alike(a, x));
    } else {
        lemma_alike_concat(a, b.drop_last(), x);
        assert((a + b).drop_last() =~= a + b.drop_last());
        assert((a + b).last() == b.last());
        if ranks_alike(b.last(), x) {
            assert(alike(a, x) + alike(b.drop_last(), x).push(b.last()) =~= (alike(a, x) + alike(
                b.drop_last(),
                x,
            )).push(b.last()));
        }
    }
}

proof fn lemma_alike_none<T: Ranked>(s: Seq<T>, x: T)
    requires
        forall|j: int| 0 <= j < s.len() ==> !ranks_alike(#[trigger] s[j], x),
    ensures
        alike(s, x) == Seq::<T>::empty(),
    decreases s.len(),
{
    if s.len() > 0 {
        assert forall|j: int| 0 <= j < s.drop_last().len() implies !ranks_alike(
            #[trigger] s.drop_last()[j],
            x,
        ) by {
            assert(s.drop_last()[j] == s[j]);
        }
        lemma_alike_none(s.drop_last(), x);
        assert(!ranks_alike(s[s.len() - 1], x));
    }
}

/// Inserting `x` after the elements that strictly precede it and before
/// the rest puts it first among the elements that rank alike with it.
proof fn lemma_insert_alike<T: Ranked>(out: Seq<T>, i: int, x: T, done: Seq<T>)
    requires
        0 <= i <= out.len(),
        forall|j: int| 0 <= j < i ==> (#[trigger] out[j]).precedes(&x) && !x.precedes(&out[j]),
        forall|z: T| #[trigger] alike(out, z) == alike(done, z),
    ensures
        forall|z: T| #[trigger] alike(out.insert(i, x), z) == alike(seq![x] + done, z),
{
    let pre = out.subrange(0, i);
    let post = out.subrange(i, out.len() as int);
    assert(out =~= pre + post);
    assert(out.insert(i, x) =~= pre + (seq![x] + post));
    assert forall|z: T| #[trigger] alike(out.insert(i, x), z) == alike(seq![x] + done, z) by {
        lemma_alike_concat(pre, seq![x] + post, z);
        lemma_alike_concat(seq![x], post, z);
        lemma_alike_concat(pre, post, z);
        lemma_alike_concat(seq![x], done, z);
        assert(seq![x].drop_last() =~= Seq::<T>::empty());
        assert(seq![x].len() == 1 && seq![x].last() == x);
        assert(alike(seq![x].drop_last(), z) =~= Seq::<T>::empty());
        assert(alike(out, z) == alike(done, z));
        if ranks_alike(x, z) {
            assert forall|j: int| 0 <= j < pre.len() implies !ranks_alike(#[trigger] pre[j], z) by {
                assert(pre[j] == out[j]);
                assert(out[j].precedes(&x) && !x.precedes(&out[j]));
                if ranks_alike(pre[j], z) {
                    T::lemma_precedes_trans(&x, &z, &pre[j]);
                }
            }
            lemma_alike_none(pre, z);
            assert(alike(pre, z) + alike(post, z) =~= alike(post, z));
        } else {
            assert(alike(seq![x], z) =~= Seq::<T>::empty());
            assert(alike(pre, z) + (Seq::<T>::empty() + alike(post, z)) =~= alike(pre, z) + alike(
                post,
                z,
            ));
            assert(Seq::<T>::empty() + alike(done, z) =~= alike(done, z));
        }
    }
}

/// Inserting `x` where everything before precedes it and it precedes
/// everything after keeps a ranked sequence ranked.
proof fn lemma_insert_ranked<T: Ranked>(s: Seq<T>, i: int, x: T)
    requires
        is_ranked(s),
        0 <= i <= s.len(),
        forall|j: int| 0 <= j < i ==> #[trigger] s[j].precedes(&x),
        forall|j: int| i <= j < s.len() ==> #[trigger] x.precedes(&s[j]),
    ensures
        is_ranked(s.insert(i, x)),
{
    let t = s.insert(i, x);
    s.insert_ensures(i, x);
    assert forall|a: int, b: int| #![trigger t[a], t[b]] 0 <= a < b < t.len() implies t[a].precedes(
        &t[b],
    ) by {
        if b < i {
        } else if a < i && b == i {
        } else if a < i && b > i {
            assert(t[b] == s[b - 1]);
        } else if a == i {
            assert(t[b] == s[b - 1]);
        } else {
            assert(t[a] == s[a - 1]);
            assert(t[b] == s[b - 1]);
        }
    }
}

/// Inserting one element adds exactly that element to the multiset.
proof fn lemma_insert_multiset<T>(s: Seq<T>, i: int, x: T)
    requires
        0 <= i <= s.len(),
    ensures
        s.insert(i, x).to_multiset() == s.to_multiset().insert(x),
{
    broadcast use vstd::seq_lib::group_to_multiset_ensures;
    broadcast use vstd::multiset::group_multiset_axioms;

    let pre = s.subrange(0, i);
    let post = s.subrange(i, s.len() as int);
    vstd::seq_lib::lemma_multiset_commutative(pre.push(x), post);
    vstd::seq_lib::lemma_multiset_commutative(pre, post);
    assert(pre + post =~= s);
    assert(s.insert(i, x).to_multiset() =~= s.to_multiset().insert(x));
}

/// Removing the last element takes it out of the multiset.
proof fn lemma_pop_multiset<T>(s: Seq<T>, x: T)
    ensures
        s.push(x).to_multiset() == s.to_multiset().insert(x),
{
    broadcast use vstd::seq_lib::group_to_multiset_ensures;

}

/// Rearranges `v` into presentation order; elements that rank alike keep
/// their order in `v` (a stable sort).
pub fn rank<T: Ranked>(v: Vec<T>) -> (r: Vec<T>)
    ensures
        is_ranked(r@),
        r@.to_multiset() == v@.to_multiset(),
        r@.len() == v@.len(),
        forall|x: T| #[trigger] alike(r@, x) == alike(v@, x),
{
    let ghost original = v@;
    let mut rest = v;
    let mut out: Vec<T> = Vec::new();
    proof {
        broadcast use vstd::seq_lib::group_to_multiset_ensures;
        broadcast use vstd::multiset::group_multiset_axioms;

        assert(out@.to_multiset() =~= Multiset::empty());
        assert(out@.to_multiset().add(rest@.to_multiset()) =~= original.to_multiset());
        assert(original.subrange(0, rest@.len() as int) =~= rest@);
        assert forall|z: T| #[trigger] alike(out@, z) == alike(
            original.subrange(rest@.len() as int, original.len() as int),
            z,
        ) by {
            assert(original.subrange(rest@.len() as int, original.len() as int) =~= Seq::<T>::empty());
        }
    }
    while rest.len() > 0
        invariant
            is_ranked(out@),
            out@.to_multiset().add(rest@.to_multiset()) == original.to_multiset(),
            out@.len() + rest@.len() == original.len(),
            rest@ == original.subrange(0, rest@.len() as int),
            forall|z: T| #[trigger] alike(out@, z) == alike(
                original.subrange(rest@.len() as int, original.len() as int),
                z,
            ),
        decreases rest.len(),
    {
        let ghost before_rest = rest@;
        let ghost done = original.subrange(rest@.len() as int, original.len() as int);
        let x = rest.pop().unwrap();
        proof {
            assert(before_rest =~= rest@.push(x));
            lemma_pop_multiset(rest@, x);
            assert(original.subrange(rest@.len() as int, original.len() as int) =~= seq![x] + done);
            assert(rest@ =~= original.subrange(0, rest@.len() as int));
        }
        let mut i: usize = 0;
        while i < out.len() && out[i].precedes_exec(&x) && !x.precedes_exec(&out[i])
            invariant
                i <= out.len(),
                forall|j: int| 0 <= j < i ==> (#[trigger] out@[j]).precedes(&x) && !x.precedes(&out@[j]),
            decreases out.len() - i,
        {
            i = i + 1;
        }
        let ghost before_out = out@;
        proof {
            if i < out@.len() {
                T::lemma_precedes_total(&out@[i as int], &x);
            }
            assert forall|j: int| i <= j < out@.len() implies #[trigger] x.precedes(&out@[j]) by {
                if j > i {
                    T::lemma_precedes_trans(&x, &out@[i as int], &out@[j]);
                }
            }
            assert forall|j: int| 0 <= j < i implies #[trigger] before_out[j].precedes(&x) by {}
            lemma_insert_ranked(before_out, i as int, x);
            lemma_insert_multiset(before_out, i as int, x);
            lemma_insert_alike(before_out, i as int, x, done);
        }
        out.insert(i, x);
        proof {
            broadcast use vstd::multiset::group_multiset_axioms;

            assert(out@.to_multiset().add(rest@.to_multiset()) =~= original.to_multiset());
        }
    }
    proof {
        assert(original.subrange(0, original.len() as int) =~= original);
    }
    out
}

/// Sequences with the same elements keep the same elements under a map.
pub proof fn lemma_multiset_map<A, B>(s1: Seq<A>, s2: Seq<A>, f: spec_fn(A) -> B)
    requires
        s1.to_multiset() == s2.to_multiset(),
    ensures
        s1.map_values(f).to_multiset() == s2.map_values(f).to_multiset(),
    decreases s1.len(),
{
    broadcast use vstd::seq_lib::group_to_multiset_ensures;
    broadcast use vstd::multiset::group_multiset_axioms;

    if s1.len() == 0 {
        assert(s1.to_multiset().len() == 0);
        assert(s2.to_multiset().len() == s2.len());
        assert(s2.len() == 0);
        assert(s1.map_values(f) =~= s2.map_values(f));
    } else {
        let x = s1.last();
        let init = s1.drop_last();
        assert(s1 =~= init.push(x));
        assert(s2.to_multiset().count(x) > 0);
        assert(s2.contains(x));
        let k = choose|k: int| 0 <= k < s2.len() && s2[k] == x;
        let rest = s2.remove(k);
        assert(rest.to_multiset() =~= s2.to_multiset().remove(x));
        assert(init.to_multiset() =~= s1.to_multiset().remove(x));
        lemma_multiset_map(init, rest, f);
        let m2 = s2.map_values(f);
        assert(m2.remove(k) =~= rest.map_values(f));
        assert(m2[k] == f(x));
        assert(m2.remove(k).to_multiset() =~= m2.to_multiset().remove(f(x)));
        assert(m2.to_multiset().count(f(x)) > 0) by {
            assert(m2.contains(f(x)));
        }
        assert(s1.map_values(f) =~= init.map_values(f).push(f(x)));
        assert(s1.map_values(f).to_multiset() =~= init.map_values(f).to_multiset().insert(f(x)));
        assert(m2.to_multiset() =~= m2.to_multiset().remove(f(x)).insert(f(x)));
    }
}

} // verus!
