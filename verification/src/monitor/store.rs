//! The goal store: every goal record under one monitor root, keyed by
//! workspace and goal id. Records persist as one file per goal; this type is
//! the content of that tree, which the application loads and writes back.
use vstd::prelude::*;
use crate::order::{
    alike, rank, ranks_alike, is_ranked, Ranked, str_lt, lemma_str_lt_asym, lemma_str_lt_neg_trans,
    lemma_str_lt_total, str_less, lemma_multiset_map,
};
use crate::text::{chars_of, same_text};
use super::model::{GoalRecord, GoalView, GoalError};

verus! {

/// `g` is stored under workspace `ws` and goal id `id`.
pub open spec fn keyed(g: GoalView, ws: Seq<char>, id: Seq<char>) -> bool {
    g.workspace_id == ws && g.id == id
}

/// No two records share a workspace and an id.
pub open spec fn unique_keys(s: Seq<GoalView>) -> bool {
    forall|i: int, j: int|
        #![trigger s[i], s[j]]
        0 <= i < j < s.len() ==> !keyed(s[j], s[i].workspace_id, s[i].id)
}

/// The contents of records.
pub open spec fn views(v: Seq<GoalRecord>) -> Seq<GoalView> {
    v.map_values(|g: GoalRecord| g@)
}

/// A record is stored under that key.
pub open spec fn has_goal(s: Seq<GoalView>, ws: Seq<char>, id: Seq<char>) -> bool {
    exists|i: int| 0 <= i < s.len() && keyed(#[trigger] s[i], ws, id)
}

/// Where the record stored under that key is.
pub open spec fn goal_index(s: Seq<GoalView>, ws: Seq<char>, id: Seq<char>) -> int {
    choose|i: int| 0 <= i < s.len() && keyed(#[trigger] s[i], ws, id)
}

/// The record stored under that key, if any.
pub open spec fn lookup(s: Seq<GoalView>, ws: Seq<char>, id: Seq<char>) -> Option<GoalView> {
    if has_goal(s, ws, id) {
        Some(s[goal_index(s, ws, id)])
    } else {
        None
    }
}

/// The records after writing `g`: it replaces the record under its key, or
/// is added.
pub open spec fn saved(s: Seq<GoalView>, g: GoalView) -> Seq<GoalView> {
    if has_goal(s, g.workspace_id, g.id) {
        s.update(goal_index(s, g.workspace_id, g.id), g)
    } else {
        s.push(g)
    }
}

/// The records of workspace `ws`.
pub open spec fn of_workspace(s: Seq<GoalView>, ws: Seq<char>) -> Seq<GoalView> {
    s.filter(|g: GoalView| g.workspace_id == ws)
}

/// Every record was updated no earlier than the records after it.
pub open spec fn newest_first(s: Seq<GoalView>) -> bool {
    forall|i: int, j: int|
        #![trigger s[i], s[j]]
        0 <= i < j < s.len() ==> !str_lt(s[i].updated_at, s[j].updated_at)
}

/// `r` lists exactly the records of workspace `ws`, newest first.
pub open spec fn is_listing(r: Seq<GoalView>, s: Seq<GoalView>, ws: Seq<char>) -> bool {
    newest_first(r) && r.to_multiset() == of_workspace(s, ws).to_multiset()
}

/// In a store with unique keys, the found index is the only one.
pub proof fn lemma_goal_index_unique(s: Seq<GoalView>, ws: Seq<char>, id: Seq<char>, i: int)
    requires
        unique_keys(s),
        0 <= i < s.len(),
        keyed(s[i], ws, id),
    ensures
        has_goal(s, ws, id),
        goal_index(s, ws, id) == i,
{
    let k = goal_index(s, ws, id);
    if k < i {
        assert(!keyed(s[i], s[k].workspace_id, s[k].id));
    } else if k > i {
        assert(!keyed(s[k], s[i].workspace_id, s[i].id));
    }
}

/// Reading a key right after writing a record under it gives that record
/// back; every other key reads as before; keys stay unique.
pub proof fn lemma_lookup_after_save(s: Seq<GoalView>, g: GoalView, ws: Seq<char>, id: Seq<char>)
    requires
        unique_keys(s),
    ensures
        unique_keys(saved(s, g)),
        lookup(saved(s, g), g.workspace_id, g.id) == Some(g),
        !(ws == g.workspace_id && id == g.id) ==> lookup(saved(s, g), ws, id) == lookup(s, ws, id),
{
    let t = saved(s, g);
    if has_goal(s, g.workspace_id, g.id) {
        let k = goal_index(s, g.workspace_id, g.id);
        assert forall|i: int, j: int| #![trigger t[i], t[j]] 0 <= i < j < t.len() implies !keyed(
            t[j],
            t[i].workspace_id,
            t[i].id,
        ) by {
            if i == k {
                assert(!keyed(s[j], s[k].workspace_id, s[k].id));
            } else if j == k {
                assert(!keyed(s[k], s[i].workspace_id, s[i].id));
            } else {
                assert(!keyed(s[j], s[i].workspace_id, s[i].id));
            }
        }
        lemma_goal_index_unique(t, g.workspace_id, g.id, k);
        if !(ws == g.workspace_id && id == g.id) {
            if has_goal(s, ws, id) {
                let m = goal_index(s, ws, id);
                assert(m != k);
                lemma_goal_index_unique(t, ws, id, m);
            } else {
                if has_goal(t, ws, id) {
                    let m = goal_index(t, ws, id);
                    assert(keyed(s[m], ws, id));
                }
            }
        }
    } else {
        assert forall|i: int, j: int| #![trigger t[i], t[j]] 0 <= i < j < t.len() implies !keyed(
            t[j],
            t[i].workspace_id,
            t[i].id,
        ) by {
            if j == s.len() {
                assert(!keyed(s[i], g.workspace_id, g.id));
            } else {
                assert(!keyed(s[j], s[i].workspace_id, s[i].id));
            }
        }
        lemma_goal_index_unique(t, g.workspace_id, g.id, s.len() as int);
        if !(ws == g.workspace_id && id == g.id) {
            if has_goal(s, ws, id) {
                let m = goal_index(s, ws, id);
                lemma_goal_index_unique(t, ws, id, m);
            } else {
                if has_goal(t, ws, id) {
                    let m = goal_index(t, ws, id);
                    assert(m != s.len());
                    assert(keyed(s[m], ws, id));
                }
            }
        }
    }
}

impl Ranked for GoalRecord {
    open spec fn precedes(&self, other: &Self) -> bool {
        !str_lt(self.updated_at@, other.updated_at@)
    }

    proof fn lemma_precedes_total(a: &Self, b: &Self) {
        lemma_str_lt_asym(a.updated_at@, b.updated_at@);
    }

    proof fn lemma_precedes_trans(a: &Self, b: &Self, c: &Self) {
        if str_lt(a.updated_at@, c.updated_at@) {
            lemma_str_lt_neg_trans(a.updated_at@, b.updated_at@, c.updated_at@);
        }
    }

    fn precedes_exec(&self, other: &Self) -> (r: bool) {
        let a = chars_of(self.updated_at.as_str());
        let b = chars_of(other.updated_at.as_str());
        !str_less(&a, &b)
    }
}

/// The goals of `s` last updated at `u`, in their order in `s`.
pub open spec fn updated_at_of(s: Seq<GoalView>, u: Seq<char>) -> Seq<GoalView>
    decreases s.len(),
{
    if s.len() == 0 {
        Seq::empty()
    } else {
        let prev = updated_at_of(s.drop_last(), u);
        if s.last().updated_at == u {
            prev.push(s.last())
        } else {
            prev
        }
    }
}

/// `a` stands before `b` in `t`.
pub open spec fn comes_before(t: Seq<GoalView>, a: GoalView, b: GoalView) -> bool {
    exists|i: int, j: int| 0 <= i < j < t.len() && #[trigger] t[i] == a && #[trigger] t[j] == b
}

proof fn lemma_updated_contains(t: Seq<GoalView>, u: Seq<char>, x: GoalView)
    ensures
        t.contains(x) && x.updated_at == u ==> updated_at_of(t, u).contains(x),
        updated_at_of(t, u).contains(x) ==> t.contains(x),
    decreases t.len(),
{
    if t.len() > 0 {
        let d = t.drop_last();
        lemma_updated_contains(d, u, x);
        let p = updated_at_of(d, u);
        if t.contains(x) && x.updated_at == u {
            let k = choose|k: int| 0 <= k < t.len() && t[k] == x;
            if k < t.len() - 1 {
                assert(d[k] == x);
                let m = choose|m: int| 0 <= m < p.len() && p[m] == x;
                if t.last().updated_at == u {
                    assert(p.push(t.last())[m] == x);
                }
            } else {
                assert(p.push(t.last())[p.len() as int] == x);
            }
        }
        if updated_at_of(t, u).contains(x) {
            let m = choose|m: int| 0 <= m < updated_at_of(t, u).len() && updated_at_of(t, u)[m] == x;
            if t.last().updated_at == u && m == p.len() {
                assert(t[t.len() - 1] == x);
            } else {
                assert(p[m] == x);
                let k = choose|k: int| 0 <= k < d.len() && d[k] == x;
                assert(t[k] == x);
            }
        }
    }
}

proof fn lemma_updated_keeps_order(t: Seq<GoalView>, u: Seq<char>, a: GoalView, b: GoalView)
    requires
        comes_before(t, a, b),
        a.updated_at == u,
        b.updated_at == u,
    ensures
        comes_before(updated_at_of(t, u), a, b),
    decreases t.len(),
{
    let (i, j) = choose|i: int, j: int| 0 <= i < j < t.len() && #[trigger] t[i] == a && #[trigger] t[j] == b;
    let d = t.drop_last();
    let p = updated_at_of(d, u);
    if j < t.len() - 1 {
        assert(d[i] == a && d[j] == b);
        lemma_updated_keeps_order(d, u, a, b);
        let (x, y) = choose|x: int, y: int| 0 <= x < y < p.len() && #[trigger] p[x] == a && #[trigger] p[y] == b;
        if t.last().updated_at == u {
            assert(p.push(t.last())[x] == a && p.push(t.last())[y] == b);
        }
    } else {
        assert(d[i] == a);
        assert(d.contains(a));
        lemma_updated_contains(d, u, a);
        let x = choose|x: int| 0 <= x < p.len() && p[x] == a;
        let q = p.push(t.last());
        assert(q[x] == a && q[p.len() as int] == b);
    }
}

proof fn lemma_updated_order_back(t: Seq<GoalView>, u: Seq<char>, a: GoalView, b: GoalView)
    requires
        comes_before(updated_at_of(t, u), a, b),
    ensures
        comes_before(t, a, b),
    decreases t.len(),
{
    let q = updated_at_of(t, u);
    let (x, y) = choose|x: int, y: int| 0 <= x < y < q.len() && #[trigger] q[x] == a && #[trigger] q[y] == b;
    let d = t.drop_last();
    let p = updated_at_of(d, u);
    if t.last().updated_at == u && y == p.len() {
        assert(p[x] == a);
        assert(p.contains(a));
        lemma_updated_contains(d, u, a);
        let i = choose|i: int| 0 <= i < d.len() && d[i] == a;
        assert(t[i] == a && t[t.len() - 1] == b);
    } else {
        assert(p[x] == a && p[y] == b);
        lemma_updated_order_back(d, u, a, b);
        let (i, j) = choose|i: int, j: int| 0 <= i < j < d.len() && #[trigger] d[i] == a && #[trigger] d[j] == b;
        assert(t[i] == a && t[j] == b);
    }
}

proof fn lemma_filter_order_back(t: Seq<GoalView>, f: spec_fn(GoalView) -> bool, a: GoalView, b: GoalView)
    requires
        comes_before(t.filter(f), a, b),
    ensures
        comes_before(t, a, b),
    decreases t.len(),
{
    reveal(Seq::filter);
    let q = t.filter(f);
    let (x, y) = choose|x: int, y: int| 0 <= x < y < q.len() && #[trigger] q[x] == a && #[trigger] q[y] == b;
    let d = t.drop_last();
    let p = d.filter(f);
    assert(q == (if f(t.last()) { p.push(t.last()) } else { p }));
    if f(t.last()) && y == p.len() {
        assert(p[x] == a);
        assert(p.contains(a));
        d.lemma_filter_contains_rev(f, a);
        let i = choose|i: int| 0 <= i < d.len() && d[i] == a;
        assert(t[i] == a && t[t.len() - 1] == b);
    } else {
        assert(p[x] == a && p[y] == b);
        lemma_filter_order_back(d, f, a, b);
        let (i, j) = choose|i: int, j: int| 0 <= i < j < d.len() && #[trigger] d[i] == a && #[trigger] d[j] == b;
        assert(t[i] == a && t[j] == b);
    }
}

/// A goal listed before another goal updated at the same time comes before
/// it in the store too.
pub proof fn lemma_listing_keeps_store_order(
    l: Seq<GoalView>,
    s: Seq<GoalView>,
    ws: Seq<char>,
    a: GoalView,
    b: GoalView,
)
    requires
        forall|u: Seq<char>| #[trigger] updated_at_of(l, u) == updated_at_of(of_workspace(s, ws), u),
        comes_before(l, a, b),
        a.updated_at == b.updated_at,
    ensures
        comes_before(s, a, b),
{
    let u = b.updated_at;
    lemma_updated_keeps_order(l, u, a, b);
    assert(updated_at_of(l, u) == updated_at_of(of_workspace(s, ws), u));
    lemma_updated_order_back(of_workspace(s, ws), u, a, b);
    lemma_filter_order_back(s, |g: GoalView| g.workspace_id == ws, a, b);
}

/// Goals that rank alike are those updated at the same time.
proof fn lemma_alike_views(t: Seq<GoalRecord>, x: GoalRecord)
    ensures
        views(alike(t, x)) == updated_at_of(views(t), x.updated_at@),
    decreases t.len(),
{
    if t.len() > 0 {
        lemma_alike_views(t.drop_last(), x);
        assert(views(t).drop_last() =~= views(t.drop_last()));
        assert(views(t).last() == t.last()@);
        lemma_str_lt_total(t.last().updated_at@, x.updated_at@);
        lemma_str_lt_asym(x.updated_at@, x.updated_at@);
        lemma_str_lt_asym(t.last().updated_at@, x.updated_at@);
        if ranks_alike(t.last(), x) {
            assert(views(alike(t.drop_last(), x).push(t.last())) =~= views(alike(t.drop_last(), x)).push(
                t.last()@,
            ));
        }
    } else {
        assert(views(alike(t, x)) =~= Seq::<GoalView>::empty());
    }
}

/// No goal updated at `u`, none listed for it.
proof fn lemma_updated_none(t: Seq<GoalView>, u: Seq<char>)
    requires
        forall|k: int| 0 <= k < t.len() ==> (#[trigger] t[k]).updated_at != u,
    ensures
        updated_at_of(t, u) == Seq::<GoalView>::empty(),
    decreases t.len(),
{
    if t.len() > 0 {
        assert forall|k: int| 0 <= k < t.drop_last().len() implies (#[trigger] t.drop_last()[k]).updated_at
            != u by {
            assert(t.drop_last()[k] == t[k]);
        }
        lemma_updated_none(t.drop_last(), u);
        assert(t.last() == t[t.len() - 1]);
    }
}

/// A goal file that does not hold a goal: its workspace, its goal id and
/// what was wrong with it.
pub struct DamagedGoal {
    pub workspace_id: String,
    pub goal_id: String,
    pub message: String,
}

/// The workspace, goal id and message of damaged goal files.
pub open spec fn damage_views(v: Seq<DamagedGoal>) -> Seq<(Seq<char>, Seq<char>, Seq<char>)> {
    v.map_values(|d: DamagedGoal| (d.workspace_id@, d.goal_id@, d.message@))
}

/// What is wrong with the file under a key: the message of the first
/// damaged entry for that key, `None` when there is none.
pub open spec fn damage_of(d: Seq<(Seq<char>, Seq<char>, Seq<char>)>, ws: Seq<char>, id: Seq<char>) -> Option<
    Seq<char>,
>
    decreases d.len(),
{
    if d.len() == 0 {
        None
    } else {
        match damage_of(d.drop_last(), ws, id) {
            Some(m) => Some(m),
            None => if d.last().0 == ws && d.last().1 == id {
                Some(d.last().2)
            } else {
                None
            },
        }
    }
}

/// The damaged entries left once a goal is written under a key.
pub open spec fn without_key(d: Seq<(Seq<char>, Seq<char>, Seq<char>)>, ws: Seq<char>, id: Seq<char>) -> Seq<
    (Seq<char>, Seq<char>, Seq<char>),
>
    decreases d.len(),
{
    if d.len() == 0 {
        Seq::empty()
    } else {
        let prev = without_key(d.drop_last(), ws, id);
        if d.last().0 == ws && d.last().1 == id {
            prev
        } else {
            prev.push(d.last())
        }
    }
}

/// The error for a key that holds no goal: the file's damage where it is
/// damaged, else that no file is there.
pub open spec fn absent_error(e: GoalError, damage: Option<Seq<char>>, missing: Seq<char>) -> bool {
    match damage {
        Some(m) => e matches GoalError::Corrupt { message } && message@ == m,
        None => e matches GoalError::NotFound { message } && message@ == missing,
    }
}

proof fn lemma_damage_prefix(d: Seq<(Seq<char>, Seq<char>, Seq<char>)>, ws: Seq<char>, id: Seq<char>, i: int)
    requires
        0 <= i <= d.len(),
        damage_of(d.take(i), ws, id) is Some,
    ensures
        damage_of(d, ws, id) == damage_of(d.take(i), ws, id),
    decreases d.len() - i,
{
    if i < d.len() {
        assert(d.take(i + 1).drop_last() =~= d.take(i));
        lemma_damage_prefix(d, ws, id, i + 1);
    } else {
        assert(d.take(i) =~= d);
    }
}

/// The records after writing `gs` one after another onto `s`.
pub open spec fn saved_all(s: Seq<GoalView>, gs: Seq<GoalView>) -> Seq<GoalView>
    decreases gs.len(),
{
    if gs.len() == 0 {
        s
    } else {
        saved(saved_all(s, gs.drop_last()), gs.last())
    }
}

/// The damaged entries left after writing `gs` one after another: each
/// write replaces the damaged file under its key.
pub open spec fn cleared_all(d: Seq<(Seq<char>, Seq<char>, Seq<char>)>, gs: Seq<GoalView>) -> Seq<
    (Seq<char>, Seq<char>, Seq<char>),
>
    decreases gs.len(),
{
    if gs.len() == 0 {
        d
    } else {
        let prev = cleared_all(d, gs.drop_last());
        without_key(prev, gs.last().workspace_id, gs.last().id)
    }
}

/// All goal records under one monitor root.
pub struct GoalStore {
    root: String,
    goals: Vec<GoalRecord>,
    damaged: Vec<DamagedGoal>,
    missing: String,
}

impl GoalStore {
    #[verifier::type_invariant]
    spec fn keys_unique(&self) -> bool {
        unique_keys(views(self.goals@))
    }

    /// The stored records.
    pub closed spec fn records(&self) -> Seq<GoalView> {
        views(self.goals@)
    }

    /// The directory the records live under.
    pub closed spec fn root_path(&self) -> Seq<char> {
        self.root@
    }

    /// What reading a goal file that is not there reports.
    pub closed spec fn missing_text(&self) -> Seq<char> {
        self.missing@
    }

    /// The goal files that do not hold a goal.
    pub closed spec fn damaged(&self) -> Seq<(Seq<char>, Seq<char>, Seq<char>)> {
        damage_views(self.damaged@)
    }

    /// An empty store rooted at `root`.
    pub fn new(root: String, missing: String) -> (s: GoalStore)
        ensures
            s.records() == Seq::<GoalView>::empty(),
            s.damaged() == Seq::<(Seq<char>, Seq<char>, Seq<char>)>::empty(),
            s.root_path() == root@,
            s.missing_text() == missing@,
    {
        let s = GoalStore { root, goals: Vec::new(), damaged: Vec::new(), missing };
        assert(views(s.goals@) =~= Seq::<GoalView>::empty());
        assert(damage_views(s.damaged@) =~= Seq::<(Seq<char>, Seq<char>, Seq<char>)>::empty());
        s
    }

    /// A store rooted at `root` holding the goal files that did not parse,
    /// `damaged`, and `records`, saved one after another in order, so that
    /// a later record replaces an earlier one, or a damaged file, under the
    /// same key.
    pub fn from_records(
        root: String,
        missing: String,
        records: Vec<GoalRecord>,
        damaged: Vec<DamagedGoal>,
    ) -> (s: GoalStore)
        ensures
            s.root_path() == root@,
            s.missing_text() == missing@,
            unique_keys(s.records()),
            s.records() == saved_all(Seq::empty(), views(records@)),
            s.damaged() == cleared_all(damage_views(damaged@), views(records@)),
    {
        let ghost d0 = damage_views(damaged@);
        let ghost gs = views(records@);
        let mut s = GoalStore { root, goals: Vec::new(), damaged, missing };
        assert(views(s.goals@) =~= Seq::<GoalView>::empty());
        assert(gs.take(0) =~= Seq::<GoalView>::empty());
        let mut i: usize = 0;
        while i < records.len()
            invariant
                s.root_path() == root@,
                s.missing_text() == missing@,
                i <= records@.len(),
                gs == views(records@),
                s.records() == saved_all(Seq::empty(), gs.take(i as int)),
                s.damaged() == cleared_all(d0, gs.take(i as int)),
            decreases records.len() - i,
        {
            let g = records[i].copy();
            proof {
                assert(gs.take(i + 1).drop_last() =~= gs.take(i as int));
                assert(gs.take(i + 1).last() == records@[i as int]@);
            }
            s.save_goal(g);
            i = i + 1;
        }
        assert(gs.take(i as int) =~= gs);
        proof {
            use_type_invariant(&s);
        }
        s
    }

    /// The directory the records live under.
    pub fn root(&self) -> (r: &String)
        ensures
            r@ == self.root_path(),
    {
        &self.root
    }

    /// The stored records, for writing them out.
    pub fn goals(&self) -> (r: &Vec<GoalRecord>)
        ensures
            views(r@) == self.records(),
            unique_keys(self.records()),
    {
        proof {
            use_type_invariant(self);
        }
        &self.goals
    }

    /// Writes `goal` under its workspace and id; a damaged file under that
    /// key is replaced.
    pub fn save_goal(&mut self, goal: GoalRecord)
        ensures
            final(self).records() == saved(old(self).records(), goal@),
            final(self).damaged() == without_key(old(self).damaged(), goal@.workspace_id, goal@.id),
            final(self).root_path() == old(self).root_path(),
            final(self).missing_text() == old(self).missing_text(),
            unique_keys(old(self).records()),
            unique_keys(final(self).records()),
    {
        proof {
            use_type_invariant(&*self);
            lemma_lookup_after_save(self.records(), goal@, goal@.workspace_id, goal@.id);
        }
        self.clear_damage(goal.workspace_id.as_str(), goal.id.as_str());
        let ghost s = self.records();
        let mut goals: Vec<GoalRecord> = Vec::new();
        std::mem::swap(&mut goals, &mut self.goals);
        let mut i: usize = 0;
        let n = goals.len();
        while i < n
            invariant
                n == goals@.len(),
                s == views(goals@),
                unique_keys(s),
                s == old(self).records(),
                self.root@ == old(self).root@,
                self.missing@ == old(self).missing@,
                damage_views(self.damaged@) == without_key(
                    damage_views(old(self).damaged@),
                    goal@.workspace_id,
                    goal@.id,
                ),
                i <= n,
                forall|j: int| 0 <= j < i ==> !keyed(#[trigger] s[j], goal@.workspace_id, goal@.id),
            decreases n - i,
        {
            if goals[i].workspace_id == goal.workspace_id && goals[i].id == goal.id {
                proof {
                    assert(s[i as int] == goals@[i as int]@);
                    lemma_goal_index_unique(s, goal@.workspace_id, goal@.id, i as int);
                }
                let ghost before = goals@;
                goals.set(i, goal);
                assert(views(goals@) =~= s.update(i as int, goal@)) by {
                    assert(goals@ == before.update(i as int, goal));
                }
                self.goals = goals;
                return;
            }
            assert(s[i as int] == goals@[i as int]@);
            i = i + 1;
        }
        goals.push(goal);
        assert(!has_goal(s, goal@.workspace_id, goal@.id));
        assert(views(goals@) =~= s.push(goal@));
        self.goals = goals;
    }

    /// The record stored under `workspace_id` and `goal_id`; where there is
    /// none, a damaged file under that key, or that there is no file.
    pub fn load_goal(&self, workspace_id: &str, goal_id: &str) -> (r: Result<GoalRecord, GoalError>)
        ensures
            unique_keys(self.records()),
            match r {
                Ok(g) => lookup(self.records(), workspace_id@, goal_id@) == Some(g@),
                Err(e) => lookup(self.records(), workspace_id@, goal_id@) is None && absent_error(
                    e,
                    damage_of(self.damaged(), workspace_id@, goal_id@),
                    self.missing_text(),
                ),
            },
    {
        proof {
            use_type_invariant(self);
        }
        let ghost s = self.records();
        let mut i: usize = 0;
        while i < self.goals.len()
            invariant
                s == views(self.goals@),
                unique_keys(s),
                i <= self.goals@.len(),
                forall|j: int| 0 <= j < i ==> !keyed(#[trigger] s[j], workspace_id@, goal_id@),
            decreases self.goals.len() - i,
        {
            let g = &self.goals[i];
            assert(s[i as int] == g@);
            if same_text(g.workspace_id.as_str(), workspace_id) && same_text(g.id.as_str(), goal_id) {
                proof {
                    lemma_goal_index_unique(s, workspace_id@, goal_id@, i as int);
                }
                return Ok(g.copy());
            }
            i = i + 1;
        }
        self.damage(workspace_id, goal_id)
    }

    /// The error for a key without a record.
    fn damage(&self, workspace_id: &str, goal_id: &str) -> (r: Result<GoalRecord, GoalError>)
        ensures
            r matches Err(e) && absent_error(
                e,
                damage_of(self.damaged(), workspace_id@, goal_id@),
                self.missing_text(),
            ),
    {
        let ghost d = self.damaged();
        let mut k: usize = 0;
        assert(d.take(0) =~= Seq::<(Seq<char>, Seq<char>, Seq<char>)>::empty());
        while k < self.damaged.len()
            invariant
                d == damage_views(self.damaged@),
                k <= self.damaged@.len(),
                damage_of(d.take(k as int), workspace_id@, goal_id@) is None,
            decreases self.damaged.len() - k,
        {
            let e = &self.damaged[k];
            proof {
                assert(d.take(k + 1).drop_last() =~= d.take(k as int));
                assert(d.take(k + 1).last() == (e.workspace_id@, e.goal_id@, e.message@));
            }
            if same_text(e.workspace_id.as_str(), workspace_id) && same_text(e.goal_id.as_str(), goal_id) {
                proof {
                    lemma_damage_prefix(d, workspace_id@, goal_id@, k + 1);
                }
                return Err(GoalError::Corrupt { message: crate::text::owned(e.message.as_str()) });
            }
            k = k + 1;
        }
        assert(d.take(k as int) =~= d);
        Err(GoalError::NotFound { message: crate::text::owned(self.missing.as_str()) })
    }

    /// Drops the damaged entries under a key.
    fn clear_damage(&mut self, workspace_id: &str, goal_id: &str)
        ensures
            final(self).damaged() == without_key(old(self).damaged(), workspace_id@, goal_id@),
            final(self).records() == old(self).records(),
            final(self).root_path() == old(self).root_path(),
            final(self).missing_text() == old(self).missing_text(),
    {
        proof {
            use_type_invariant(&*self);
        }
        let ghost d = self.damaged();
        let mut kept: Vec<DamagedGoal> = Vec::new();
        let mut all: Vec<DamagedGoal> = Vec::new();
        std::mem::swap(&mut all, &mut self.damaged);
        assert(d.take(0) =~= Seq::<(Seq<char>, Seq<char>, Seq<char>)>::empty());
        assert(damage_views(kept@) =~= Seq::<(Seq<char>, Seq<char>, Seq<char>)>::empty());
        let mut k: usize = 0;
        while k < all.len()
            invariant
                d == damage_views(all@),
                k <= all@.len(),
                damage_views(kept@) == without_key(d.take(k as int), workspace_id@, goal_id@),
            decreases all.len() - k,
        {
            let e = &all[k];
            proof {
                assert(d.take(k + 1).drop_last() =~= d.take(k as int));
                assert(d.take(k + 1).last() == (e.workspace_id@, e.goal_id@, e.message@));
            }
            if !(same_text(e.workspace_id.as_str(), workspace_id) && same_text(e.goal_id.as_str(), goal_id)) {
                let ghost before = kept@;
                kept.push(
                    DamagedGoal {
                        workspace_id: crate::text::owned(e.workspace_id.as_str()),
                        goal_id: crate::text::owned(e.goal_id.as_str()),
                        message: crate::text::owned(e.message.as_str()),
                    },
                );
                assert(damage_views(kept@) =~= damage_views(before).push(
                    (e.workspace_id@, e.goal_id@, e.message@),
                ));
            }
            k = k + 1;
        }
        assert(d.take(k as int) =~= d);
        self.damaged = kept;
    }

    /// The records of workspace `workspace_id`, newest first.
    pub fn list_goals(&self, workspace_id: &str) -> (r: Vec<GoalRecord>)
        ensures
            unique_keys(self.records()),
            is_listing(views(r@), self.records(), workspace_id@),
            forall|u: Seq<char>|
                #[trigger] updated_at_of(views(r@), u) == updated_at_of(
                    of_workspace(self.records(), workspace_id@),
                    u,
                ),
    {
        proof {
            use_type_invariant(self);
        }
        let ghost s = self.records();
        let ghost p = |g: GoalView| g.workspace_id == workspace_id@;
        let mut sel: Vec<GoalRecord> = Vec::new();
        let mut i: usize = 0;
        assert(s.take(0) =~= Seq::<GoalView>::empty());
        assert(views(sel@) =~= s.take(0).filter(p)) by {
            reveal(Seq::filter);
        }
        while i < self.goals.len()
            invariant
                s == views(self.goals@),
                i <= self.goals@.len(),
                views(sel@) == s.take(i as int).filter(p),
                p == (|g: GoalView| g.workspace_id == workspace_id@),
            decreases self.goals.len() - i,
        {
            let g = &self.goals[i];
            assert(s[i as int] == g@);
            assert(s.take(i + 1) =~= s.take(i as int).push(g@));
            proof {
                s.take(i as int).lemma_filter_push(g@, p);
            }
            if same_text(g.workspace_id.as_str(), workspace_id) {
                let c = g.copy();
                let ghost before = sel@;
                sel.push(c);
                assert(views(sel@) =~= views(before).push(g@));
            }
            i = i + 1;
        }
        assert(s.take(i as int) =~= s);
        let ghost selected = sel@;
        let r = rank(sel);
        proof {
            lemma_multiset_map(r@, selected, |g: GoalRecord| g@);
            assert forall|a: int, b: int| #![trigger views(r@)[a], views(r@)[b]] 0 <= a < b < views(
                r@,
            ).len() implies !str_lt(views(r@)[a].updated_at, views(r@)[b].updated_at) by {
                assert(r@[a].precedes(&r@[b]));
            }
            assert(of_workspace(s, workspace_id@) == s.filter(p));
            assert(views(selected) == of_workspace(s, workspace_id@));
            assert forall|u: Seq<char>|
                #[trigger] updated_at_of(views(r@), u) == updated_at_of(of_workspace(s, workspace_id@), u) by {
                if exists|k: int| 0 <= k < r@.len() && (#[trigger] r@[k])@.updated_at == u {
                    let k = choose|k: int| 0 <= k < r@.len() && (#[trigger] r@[k])@.updated_at == u;
                    lemma_alike_views(r@, r@[k]);
                    lemma_alike_views(selected, r@[k]);
                    assert(alike(r@, r@[k]) == alike(selected, r@[k]));
                } else if exists|k: int| 0 <= k < selected.len() && (#[trigger] selected[k])@.updated_at == u {
                    let k = choose|k: int| 0 <= k < selected.len() && (#[trigger] selected[k])@.updated_at == u;
                    lemma_alike_views(r@, selected[k]);
                    lemma_alike_views(selected, selected[k]);
                    assert(alike(r@, selected[k]) == alike(selected, selected[k]));
                } else {
                    assert forall|k: int| 0 <= k < views(r@).len() implies (#[trigger] views(r@)[k]).updated_at
                        != u by {
                        assert(views(r@)[k] == r@[k]@);
                    }
                    assert forall|k: int| 0 <= k < views(selected).len() implies (
                    #[trigger] views(selected)[k]).updated_at != u by {
                        assert(views(selected)[k] == selected[k]@);
                    }
                    lemma_updated_none(views(r@), u);
                    lemma_updated_none(views(selected), u);
                }
            }
        }
        r
    }
}

/// The directory holding one workspace's goal files under the store root:
/// `workspaces/{workspace_id}/goals`.
pub fn goals_dir(root: &str, workspace_id: &str) -> (r: String)
    ensures
        r@ == crate::access_log::path_join(
            crate::access_log::path_join(
                crate::access_log::path_join(root@, "workspaces"@),
                workspace_id@,
            ),
            "goals"@,
        ),
{
    let a = crate::access_log::join_path(root, "workspaces");
    let b = crate::access_log::join_path(a.as_str(), workspace_id);
    crate::access_log::join_path(b.as_str(), "goals")
}

/// The file of one goal: `{goal_id}.json` in its workspace's directory.
pub fn goal_file(root: &str, workspace_id: &str, goal_id: &str) -> (r: String)
    ensures
        r@ == crate::access_log::path_join(
            crate::access_log::path_join(
                crate::access_log::path_join(
                    crate::access_log::path_join(root@, "workspaces"@),
                    workspace_id@,
                ),
                "goals"@,
            ),
            goal_id@ + ".json"@,
        ),
{
    let dir = goals_dir(root, workspace_id);
    let mut name = crate::text::owned(goal_id);
    crate::text::push_text(&mut name, ".json");
    crate::access_log::join_path(dir.as_str(), name.as_str())
}

} // verus!
