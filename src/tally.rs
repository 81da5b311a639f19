//! Running totals keyed by group name, and their stable ordering.

use vstd::prelude::*;

verus! {

/// A tally as seen by the contracts: (group name, total) in first-insertion order.
pub type TallyModel = Seq<(Seq<char>, int)>;

pub open spec fn tally_view(t: Seq<(String, i128)>) -> TallyModel {
    t.map_values(|e: (String, i128)| (e.0@, e.1 as int))
}

/// No group name occurs twice.
pub open spec fn keys_unique(t: TallyModel) -> bool {
    forall|i: int, j: int| 0 <= i < t.len() && 0 <= j < t.len() && i != j ==> t[i].0 != t[j].0
}

/// The position of `k` in `t`, if it is there.
pub open spec fn key_index(t: TallyModel, k: Seq<char>) -> Option<int> {
    if exists|i: int| 0 <= i < t.len() && t[i].0 == k {
        Some(choose|i: int| 0 <= i < t.len() && t[i].0 == k)
    } else {
        None
    }
}

/// `t` with `a` added to the total of `k`; a new key goes last.
pub open spec fn add_to(t: TallyModel, k: Seq<char>, a: int) -> TallyModel {
    match key_index(t, k) {
        Some(i) => t.update(i, (k, t[i].1 + a)),
        None => t.push((k, a)),
    }
}

/// The total of `k` in `t`, zero when it is absent.
pub open spec fn total_for(t: TallyModel, k: Seq<char>) -> int {
    match key_index(t, k) {
        Some(i) => t[i].1,
        None => 0,
    }
}

/// The sum of all totals.
pub open spec fn sum_totals(t: TallyModel) -> int
    decreases t.len(),
{
    if t.len() == 0 {
        0
    } else {
        t[0].1 + sum_totals(t.drop_first())
    }
}

/// The sort key: the total itself, or, ordering by magnitude, its negated
/// absolute value (largest magnitude first).
pub open spec fn rank(e: (Seq<char>, int), by_magnitude: bool) -> int {
    if by_magnitude {
        if e.1 < 0 { e.1 } else { -e.1 }
    } else {
        e.1
    }
}

/// `s` is in ascending order of rank.
pub open spec fn sorted_by_rank(s: TallyModel, by_magnitude: bool) -> bool {
    forall|i: int, j: int|
        0 <= i < j < s.len() ==> rank(s[i], by_magnitude) <= rank(s[j], by_magnitude)
}

/// `x` inserted into `s` before the first entry of rank not below its own.
pub open spec fn insert_sorted(x: (Seq<char>, int), s: TallyModel, by_magnitude: bool) -> TallyModel
    decreases s.len(),
{
    if s.len() == 0 || rank(x, by_magnitude) <= rank(s[0], by_magnitude) {
        seq![x] + s
    } else {
        seq![s[0]] + insert_sorted(x, s.drop_first(), by_magnitude)
    }
}

/// The stable sort of `t` by ascending rank: entries of equal rank keep their order.
pub open spec fn stable_sort(t: TallyModel, by_magnitude: bool) -> TallyModel
    decreases t.len(),
{
    if t.len() == 0 {
        t
    } else {
        insert_sorted(t[0], stable_sort(t.drop_first(), by_magnitude), by_magnitude)
    }
}

/// Where `insert_sorted` puts `x`.
pub open spec fn first_not_below(x: (Seq<char>, int), s: TallyModel, by_magnitude: bool) -> nat
    decreases s.len(),
{
    if s.len() == 0 || rank(x, by_magnitude) <= rank(s[0], by_magnitude) {
        0
    } else {
        1 + first_not_below(x, s.drop_first(), by_magnitude)
    }
}

pub proof fn lemma_first_not_below(x: (Seq<char>, int), s: TallyModel, by_magnitude: bool)
    ensures
        first_not_below(x, s, by_magnitude) <= s.len(),
        forall|k: int|
            0 <= k < first_not_below(x, s, by_magnitude) ==> rank(#[trigger] s[k], by_magnitude)
                < rank(x, by_magnitude),
        first_not_below(x, s, by_magnitude) < s.len() ==> rank(x, by_magnitude) <= rank(
            s[first_not_below(x, s, by_magnitude) as int],
            by_magnitude,
        ),
        insert_sorted(x, s, by_magnitude) == s.insert(first_not_below(x, s, by_magnitude) as int, x),
    decreases s.len(),
{
    if s.len() == 0 || rank(x, by_magnitude) <= rank(s[0], by_magnitude) {
        assert(seq![x] + s =~= s.insert(0, x));
    } else {
        let t = s.drop_first();
        lemma_first_not_below(x, t, by_magnitude);
        let i = first_not_below(x, t, by_magnitude) as int;
        assert forall|k: int| 0 <= k < i + 1 implies rank(#[trigger] s[k], by_magnitude) < rank(
            x,
            by_magnitude,
        ) by {
            if k > 0 {
                assert(s[k] == t[k - 1]);
            }
        }
        if i < t.len() {
            assert(s[i + 1] == t[i]);
        }
        assert(seq![s[0]] + t.insert(i, x) =~= s.insert(i + 1, x));
    }
}

/// Inserting at the first position whose rank is not below keeps order.
pub proof fn lemma_insert_keeps_sorted(x: (Seq<char>, int), s: TallyModel, by_magnitude: bool)
    requires
        sorted_by_rank(s, by_magnitude),
    ensures
        sorted_by_rank(insert_sorted(x, s, by_magnitude), by_magnitude),
        insert_sorted(x, s, by_magnitude).len() == s.len() + 1,
{
    lemma_first_not_below(x, s, by_magnitude);
    let i = first_not_below(x, s, by_magnitude) as int;
    let r = s.insert(i, x);
    assert forall|a: int, b: int| 0 <= a < b < r.len() implies rank(r[a], by_magnitude) <= rank(
        r[b],
        by_magnitude,
    ) by {
        if b < i {
        } else if b == i {
            assert(rank(s[a], by_magnitude) < rank(x, by_magnitude));
        } else if a < i {
            assert(rank(s[a], by_magnitude) < rank(x, by_magnitude));
            assert(rank(x, by_magnitude) <= rank(s[i], by_magnitude));
        } else if a == i {
            assert(rank(x, by_magnitude) <= rank(s[i], by_magnitude));
        } else {
        }
    }
}

pub proof fn lemma_insert_sum(x: (Seq<char>, int), s: TallyModel, by_magnitude: bool)
    ensures
        sum_totals(insert_sorted(x, s, by_magnitude)) == x.1 + sum_totals(s),
    decreases s.len(),
{
    if s.len() == 0 || rank(x, by_magnitude) <= rank(s[0], by_magnitude) {
        assert((seq![x] + s).drop_first() =~= s);
    } else {
        lemma_insert_sum(x, s.drop_first(), by_magnitude);
        assert((seq![s[0]] + insert_sorted(x, s.drop_first(), by_magnitude)).drop_first()
            =~= insert_sorted(x, s.drop_first(), by_magnitude));
    }
}

/// The stable sort is ordered, keeps the length, and keeps the sum of the totals.
pub proof fn lemma_stable_sort(t: TallyModel, by_magnitude: bool)
    ensures
        sorted_by_rank(stable_sort(t, by_magnitude), by_magnitude),
        stable_sort(t, by_magnitude).len() == t.len(),
        sum_totals(stable_sort(t, by_magnitude)) == sum_totals(t),
    decreases t.len(),
{
    if t.len() > 0 {
        lemma_stable_sort(t.drop_first(), by_magnitude);
        lemma_insert_keeps_sorted(t[0], stable_sort(t.drop_first(), by_magnitude), by_magnitude);
        lemma_insert_sum(t[0], stable_sort(t.drop_first(), by_magnitude), by_magnitude);
    }
}

/// Sorts a tally stably by ascending total, or by descending magnitude.
pub fn sort_tally(t: &Vec<(String, i128)>, by_magnitude: bool) -> (r: Vec<(String, i128)>)
    ensures
        tally_view(r@) == stable_sort(tally_view(t@), by_magnitude),
{
    let n = t.len();
    let mut out: Vec<(String, i128)> = Vec::new();
    let mut j: usize = n;
    assert(tally_view(t@).subrange(n as int, n as int) =~= Seq::<(Seq<char>, int)>::empty());
    assert(tally_view(out@) =~= Seq::<(Seq<char>, int)>::empty());
    while j > 0
        invariant
            n == t.len(),
            j <= n,
            tally_view(out@) == stable_sort(tally_view(t@).subrange(j as int, n as int), by_magnitude),
        decreases j,
    {
        let ghost tv = tally_view(t@);
        let ghost before = tally_view(out@);
        let x = (t[j - 1].0.clone(), t[j - 1].1);
        let ghost xv = (x.0@, x.1 as int);
        let mut i: usize = 0;
        let ghost keys = tv.subrange(j - 1, n as int);
        proof {
            assert(keys[0] == xv);
            assert(keys.drop_first() =~= tv.subrange(j as int, n as int));
            lemma_first_not_below(xv, before, by_magnitude);
        }
        let m = out.len();
        let mut found = false;
        while i < m && !found
            invariant
                m == out.len(),
                i <= m,
                found ==> i < m && rank(before[i as int], by_magnitude) >= rank(xv, by_magnitude),
                before == tally_view(out@),
                xv == (x.0@, x.1 as int),
                forall|k: int| 0 <= k < i ==> rank(#[trigger] before[k], by_magnitude) < rank(xv, by_magnitude),
            decreases m - i + (if found { 0int } else { 1int }),
        {
            let v = out[i].1;
            assert(before[i as int].1 == v as int);
            let below = if by_magnitude {
                let xa: i128 = if x.1 < 0 { x.1 } else { -x.1 };
                let va: i128 = if v < 0 { v } else { -v };
                va < xa
            } else {
                v < x.1
            };
            if below {
                i = i + 1;
            } else {
                found = true;
            }
        }
        proof {
            let p = first_not_below(xv, before, by_magnitude) as int;

            if p < i {
                assert(rank(before[p], by_magnitude) < rank(xv, by_magnitude));
            }
            if i < p {
                assert(rank(before[i as int], by_magnitude) < rank(xv, by_magnitude));
            }
            assert(i == p);
        }
        out.insert(i, x);
        proof {
            assert(tally_view(out@) =~= before.insert(i as int, xv));
        }
        j = j - 1;
    }
    assert(tally_view(t@).subrange(0, n as int) =~= tally_view(t@));
    out
}

proof fn lemma_key_index(t: TallyModel, k: Seq<char>, i: int)
    requires
        keys_unique(t),
        0 <= i < t.len(),
        t[i].0 == k,
    ensures
        key_index(t, k) == Some(i),
{
    let c = choose|c: int| 0 <= c < t.len() && t[c].0 == k;
}

/// The position of `k` in `t`.
pub fn find_key(t: &Vec<(String, i128)>, k: &String) -> (r: Option<usize>)
    requires
        keys_unique(tally_view(t@)),
    ensures
        match r {
            Some(i) => key_index(tally_view(t@), k@) == Some(i as int),
            None => key_index(tally_view(t@), k@) is None,
        },
{
    let ghost tv = tally_view(t@);
    let mut i: usize = 0;
    while i < t.len()
        invariant
            i <= t.len(),
            tv == tally_view(t@),
            keys_unique(tv),
            forall|j: int| 0 <= j < i ==> tv[j].0 != k@,
        decreases t.len() - i,
    {
        if t[i].0 == *k {
            proof {
                lemma_key_index(tv, k@, i as int);
            }
            return Some(i);
        }
        i = i + 1;
    }
    None
}

/// The total of `k` in `t`, zero when it is absent.
pub fn total_of(t: &Vec<(String, i128)>, k: &String) -> (r: i128)
    requires
        keys_unique(tally_view(t@)),
    ensures
        r as int == total_for(tally_view(t@), k@),
{
    match find_key(t, k) {
        Some(i) => t[i].1,
        None => 0,
    }
}

/// Adds `a` to the total of `k`, appending `k` when it is new.
pub fn add_to_tally(t: &mut Vec<(String, i128)>, k: &String, a: i128)
    requires
        keys_unique(tally_view(old(t)@)),
        forall|i: int|
            0 <= i < old(t)@.len() && (#[trigger] old(t)@[i]).0@ == k@ ==> i128::MIN <= old(t)@[i].1
                + a <= i128::MAX,
    ensures
        tally_view(final(t)@) == add_to(tally_view(old(t)@), k@, a as int),
        keys_unique(tally_view(final(t)@)),
{
    let ghost tv = tally_view(t@);
    match find_key(t, k) {
        Some(i) => {
            let total = t[i].1 + a;
            t.set(i, (k.clone(), total));
            assert(tally_view(t@) =~= tv.update(i as int, (k@, tv[i as int].1 + a)));
        },
        None => {
            t.push((k.clone(), a));
            assert(tally_view(t@) =~= tv.push((k@, a as int)));
        },
    }
}

pub proof fn lemma_sum_update(t: TallyModel, i: int, v: (Seq<char>, int))
    requires
        0 <= i < t.len(),
    ensures
        sum_totals(t.update(i, v)) == sum_totals(t) - t[i].1 + v.1,
    decreases t.len(),
{
    if i > 0 {
        lemma_sum_update(t.drop_first(), i - 1, v);
        assert(t.update(i, v).drop_first() =~= t.drop_first().update(i - 1, v));
    } else {
        assert(t.update(i, v).drop_first() =~= t.drop_first());
    }
}

pub proof fn lemma_sum_push(t: TallyModel, v: (Seq<char>, int))
    ensures
        sum_totals(t.push(v)) == sum_totals(t) + v.1,
    decreases t.len(),
{
    if t.len() > 0 {
        lemma_sum_push(t.drop_first(), v);
        assert(t.push(v).drop_first() =~= t.drop_first().push(v));
    } else {
        assert(t.push(v).drop_first() =~= t);
    }
}

/// Adding to a tally adds to the sum of its totals.
pub proof fn lemma_add_to_sum(t: TallyModel, k: Seq<char>, a: int)
    ensures
        sum_totals(add_to(t, k, a)) == sum_totals(t) + a,
{
    match key_index(t, k) {
        Some(i) => lemma_sum_update(t, i, (k, t[i].1 + a)),
        None => lemma_sum_push(t, (k, a)),
    }
}

} // verus!
