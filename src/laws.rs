//! Properties that hold of every accumulator and its aggregate.

use vstd::prelude::*;
use crate::groups::{sum_amounts, top_entries, Aggregate, Groups, MONTHLY_TOP};
use crate::tally::{lemma_stable_sort, sorted_by_rank, stable_sort, sum_totals, tally_view};

verus! {

/// The absolute value.
pub open spec fn magnitude(x: int) -> int {
    if x < 0 { -x } else { x }
}

/// The totals of the summary add up to the sum of all amounts pushed: no
/// amount is lost or counted twice by the grouping.
pub proof fn law_total_conserved(g: Groups, a: Aggregate)
    requires
        g.wf(),
        a.model() == g.aggregate_model(),
    ensures
        sum_totals(tally_view(a.stats_summary@)) == sum_amounts(g.amounts()),
{
    g.lemma_wf();
    lemma_stable_sort(g.totals_model(), false);
}

/// The summary is in ascending order of total.
pub proof fn law_summary_ascending(g: Groups, a: Aggregate)
    requires
        g.wf(),
        a.model() == g.aggregate_model(),
    ensures
        forall|i: int, j: int|
            0 <= i < j < a.stats_summary@.len() ==> a.stats_summary@[i].1 <= a.stats_summary@[j].1,
{
    lemma_stable_sort(g.totals_model(), false);
    let s = tally_view(a.stats_summary@);
    assert forall|i: int, j: int| 0 <= i < j < a.stats_summary@.len() implies a.stats_summary@[i].1
        <= a.stats_summary@[j].1 by {
        assert(s[i].1 == a.stats_summary@[i].1);
        assert(s[j].1 == a.stats_summary@[j].1);
    }
}

/// The monthly buckets strictly ascend by (year, month): no month twice.
pub proof fn law_months_ascending(g: Groups, a: Aggregate)
    requires
        g.wf(),
        a.model() == g.aggregate_model(),
    ensures
        forall|i: int, j: int|
            0 <= i < j < a.stats_monthly@.len() ==> a.stats_monthly@[i].0.lt(a.stats_monthly@[j].0),
{
    g.lemma_wf();
    let b = g.buckets_model();
    let m = crate::groups::buckets_view(a.stats_monthly@);
    assert(m.len() == b.len());
    assert forall|i: int, j: int| 0 <= i < j < a.stats_monthly@.len() implies a.stats_monthly@[i].0.lt(
        a.stats_monthly@[j].0,
    ) by {
        assert(m[i].0 == b[i].0);
        assert(m[j].0 == b[j].0);
    }
}

/// Each month holds at most twenty entries, by descending magnitude.
pub proof fn law_monthly_top(g: Groups, a: Aggregate)
    requires
        g.wf(),
        a.model() == g.aggregate_model(),
    ensures
        forall|i: int|
            0 <= i < a.stats_monthly@.len() ==> (#[trigger] a.stats_monthly@[i]).1@.len() <= MONTHLY_TOP,
        forall|i: int, x: int, y: int|
            0 <= i < a.stats_monthly@.len() && 0 <= x < y < a.stats_monthly@[i].1@.len() ==> magnitude(
                (#[trigger] a.stats_monthly@[i].1@[x]).1 as int,
            ) >= magnitude((#[trigger] a.stats_monthly@[i].1@[y]).1 as int),
{
    let b = g.buckets_model();
    let m = crate::groups::buckets_view(a.stats_monthly@);
    assert(m.len() == b.len());
    assert forall|i: int| 0 <= i < a.stats_monthly@.len() implies (#[trigger] a.stats_monthly@[i]).1@.len()
        <= MONTHLY_TOP && sorted_by_rank(tally_view(a.stats_monthly@[i].1@), true) by {
        lemma_stable_sort(b[i].1, true);
        assert(m[i].1 == top_entries(b[i].1));
        assert(m[i].1 == tally_view(a.stats_monthly@[i].1@));
    }
    assert forall|i: int, x: int, y: int|
        0 <= i < a.stats_monthly@.len() && 0 <= x < y < a.stats_monthly@[i].1@.len() implies magnitude(
            (#[trigger] a.stats_monthly@[i].1@[x]).1 as int,
        ) >= magnitude((#[trigger] a.stats_monthly@[i].1@[y]).1 as int) by {
        let t = tally_view(a.stats_monthly@[i].1@);
        assert(sorted_by_rank(t, true));
        assert(t[x].1 == a.stats_monthly@[i].1@[x].1);
        assert(t[y].1 == a.stats_monthly@[i].1@[y].1);
    }
}

/// The grouped series come in exactly the group order of the summary.
pub proof fn law_grouped_follows_summary(g: Groups, a: Aggregate)
    requires
        g.wf(),
        a.model() == g.aggregate_model(),
    ensures
        a.stats_grouped@.len() == a.stats_summary@.len(),
        forall|i: int|
            0 <= i < a.stats_grouped@.len() ==> (#[trigger] a.stats_grouped@[i]).0@
                == a.stats_summary@[i].0@,
{
    let s = tally_view(a.stats_summary@);
    let gv = crate::groups::grouped_view(a.stats_grouped@);
    assert(gv.len() == s.len());
    assert forall|i: int| 0 <= i < a.stats_grouped@.len() implies (#[trigger] a.stats_grouped@[i]).0@
        == a.stats_summary@[i].0@ by {
        assert(gv[i].0 == a.stats_grouped@[i].0@);
        assert(s[i].0 == a.stats_summary@[i].0@);
    }
}

/// Aggregating one accumulated state twice gives the same result: nothing in
/// it depends on anything but the state.
pub proof fn law_aggregate_deterministic(g: Groups, a: Aggregate, b: Aggregate)
    requires
        g.wf(),
        a.model() == g.aggregate_model(),
        b.model() == g.aggregate_model(),
    ensures
        a.model() == b.model(),
        tally_view(a.stats_summary@) == stable_sort(g.totals_model(), false),
{
}

} // verus!
