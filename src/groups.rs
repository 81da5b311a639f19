//! Classification of transactions into groups and their aggregation.

use vstd::prelude::*;
use crate::calendar::{Date, MonthYear, EARLIEST_YEAR, LATEST_YEAR};
use crate::number::amount_in_range;
use crate::record::Record;
use crate::tally::{
    add_to, add_to_tally, find_key, key_index, keys_unique, lemma_add_to_sum, sort_tally, stable_sort, sum_totals, tally_view, total_for,
    total_of, TallyModel,
};
use crate::text::{lower_of, lowercase, regex_matches, Pattern};

verus! {

/// The largest number of transactions one accumulator takes.
pub const MAX_RECORDS: u64 = 1_099_511_627_776;

/// Every amount is below this in magnitude (2^84).
pub const AMOUNT_BOUND: i128 = 0x1000000000000000000000;

/// How many entries of each month are kept.
pub const MONTHLY_TOP: usize = 20;

/// The ordered patterns that map a party to a group: (regex, group name).
pub struct GroupConfig {
    pub parties: Vec<(String, String)>,
}

pub open spec fn config_view(c: Seq<(String, String)>) -> Seq<(Seq<char>, Seq<char>)> {
    c.map_values(|e: (String, String)| (e.0@, e.1@))
}

/// The group of the first pattern that matches `text`.
pub open spec fn first_group(ms: Seq<(Seq<char>, Seq<char>)>, text: Seq<char>) -> Option<Seq<char>>
    decreases ms.len(),
{
    if ms.len() == 0 {
        None
    } else if regex_matches(ms[0].0, text) {
        Some(ms[0].1)
    } else {
        first_group(ms.drop_first(), text)
    }
}

/// The group of a party: that of the first pattern matching its lower-case
/// form, else the lower-case form itself.
pub open spec fn group_of(ms: Seq<(Seq<char>, Seq<char>)>, party: Seq<char>) -> Seq<char> {
    match first_group(ms, lower_of(party)) {
        Some(g) => g,
        None => lower_of(party),
    }
}

/// Monthly tallies as seen by the contracts.
pub type BucketsModel = Seq<(MonthYear, TallyModel)>;

pub open spec fn buckets_view(b: Seq<(MonthYear, Vec<(String, i128)>)>) -> BucketsModel {
    b.map_values(|e: (MonthYear, Vec<(String, i128)>)| (e.0, tally_view(e.1@)))
}

/// The months strictly ascend.
pub open spec fn months_ascending(b: BucketsModel) -> bool {
    forall|i: int, j: int| 0 <= i < j < b.len() ==> (#[trigger] b[i].0).lt(#[trigger] b[j].0)
}

/// `i` splits `b` into the months before `m` and the others.
pub open spec fn splits_at(b: BucketsModel, m: MonthYear, i: int) -> bool {
    &&& 0 <= i <= b.len()
    &&& forall|k: int| 0 <= k < i ==> (#[trigger] b[k].0).lt(m)
    &&& forall|k: int| i <= k < b.len() ==> !(#[trigger] b[k].0).lt(m)
}

/// `b` with `a` added to the total of group `k` in month `m`; a new month
/// takes its place in the order.
pub open spec fn add_to_month(b: BucketsModel, m: MonthYear, k: Seq<char>, a: int) -> BucketsModel {
    let i = choose|i: int| splits_at(b, m, i);
    if i < b.len() && b[i].0 == m {
        b.update(i, (m, add_to(b[i].1, k, a)))
    } else {
        b.insert(i, (m, seq![(k, a)]))
    }
}

/// The sum of a sequence of amounts.
pub open spec fn sum_amounts(s: Seq<int>) -> int
    decreases s.len(),
{
    if s.len() == 0 {
        0
    } else {
        sum_amounts(s.drop_last()) + s.last()
    }
}

pub open spec fn within(t: TallyModel, bound: int) -> bool {
    forall|i: int| 0 <= i < t.len() ==> -bound <= (#[trigger] t[i]).1 <= bound
}

proof fn lemma_add_to_within(t: TallyModel, k: Seq<char>, a: int, bound: int, b: int)
    requires
        within(t, bound),
        0 <= b <= bound + b,
        -b <= a <= b,
    ensures
        within(add_to(t, k, a), bound + b),
{
}

proof fn lemma_split_unique(b: BucketsModel, m: MonthYear, i: int, j: int)
    requires
        splits_at(b, m, i),
        splits_at(b, m, j),
    ensures
        i == j,
{
    if i < j {
        assert(b[i].0.lt(m));
    } else if j < i {
        assert(b[j].0.lt(m));
    }
}

/// Adds `a` to the total of group `k` in month `m`.
fn add_to_bucket(b: &mut Vec<(MonthYear, Vec<(String, i128)>)>, m: MonthYear, k: &String, a: i128)
    requires
        months_ascending(buckets_view(old(b)@)),
        forall|i: int| 0 <= i < old(b)@.len() ==> keys_unique(#[trigger] buckets_view(old(b)@)[i].1),
        forall|i: int, j: int|
            0 <= i < old(b)@.len() && 0 <= j < old(b)@[i].1@.len() ==> i128::MIN <= (
            #[trigger] old(b)@[i].1@[j]).1 + a <= i128::MAX,
    ensures
        exists|c: int| splits_at(buckets_view(old(b)@), m, c),
        buckets_view(final(b)@) == add_to_month(buckets_view(old(b)@), m, k@, a as int),
        months_ascending(buckets_view(final(b)@)),
        forall|i: int|
            0 <= i < final(b)@.len() ==> keys_unique(#[trigger] buckets_view(final(b)@)[i].1),
{
    let ghost bv = buckets_view(b@);
    let n = b.len();
    let mut i: usize = 0;
    let mut found = false;
    while i < n && !found
        invariant
            n == b@.len(),
            bv == buckets_view(b@),
            i <= n,
            forall|k: int| 0 <= k < i ==> (#[trigger] bv[k].0).lt(m),
            found ==> i < n && !bv[i as int].0.lt(m),
        decreases n - i + (if found { 0int } else { 1int }),
    {
        if b[i].0.is_before(&m) {
            i = i + 1;
        } else {
            found = true;
        }
    }
    proof {
        assert forall|k: int| i <= k < bv.len() implies !(#[trigger] bv[k].0).lt(m) by {
            if k > i {
                assert(bv[i as int].0.lt(bv[k].0));
            }
        }
        assert(splits_at(bv, m, i as int));
        let c = choose|c: int| splits_at(bv, m, c);
        lemma_split_unique(bv, m, i as int, c);
    }
    if i < n && b[i].0.same_as(&m) {
        let (month, mut tally) = b.remove(i);
        proof {
            assert(tally_view(tally@) == bv[i as int].1);
            assert forall|j: int| 0 <= j < tally@.len() && (#[trigger] tally@[j]).0@ == k@ implies
                i128::MIN <= tally@[j].1 + a <= i128::MAX by {
                assert(old(b)@[i as int].1@[j] == tally@[j]);
            }
        }
        add_to_tally(&mut tally, k, a);
        b.insert(i, (month, tally));
        proof {
            assert(buckets_view(b@) =~= bv.update(i as int, (m, add_to(bv[i as int].1, k@, a as int))));
        }
    } else {
        let mut fresh: Vec<(String, i128)> = Vec::new();
        fresh.push((k.clone(), a));
        b.insert(i, (m, fresh));
        proof {
            assert(tally_view(fresh@) =~= seq![(k@, a as int)]);
            assert(buckets_view(b@) =~= bv.insert(i as int, (m, seq![(k@, a as int)])));
            let nb = buckets_view(b@);
            assert forall|x: int, y: int| 0 <= x < y < nb.len() implies (#[trigger] nb[x].0).lt(
                #[trigger] nb[y].0,
            ) by {
                if y == i {
                } else if x == i {
                    assert(!bv[y - 1].0.lt(m));
                    if i < n {
                        assert(bv[i as int].0 != m);
                        if y - 1 > i {
                            assert(bv[i as int].0.lt(bv[y - 1].0));
                        }
                    }
                } else {
                }
            }
        }
    }
}

/// The final views of an accumulator.
pub struct Aggregate {
    pub start: Date,
    pub end: Date,
    /// (group, total), ascending by total.
    pub stats_summary: Vec<(String, i128)>,
    /// Per month, ascending: its largest entries by magnitude, at most twenty.
    pub stats_monthly: Vec<(MonthYear, Vec<(String, i128)>)>,
    /// Per group, in the order of `stats_summary`: its total in every month.
    pub stats_grouped: Vec<(String, Vec<(MonthYear, i128)>)>,
}

/// An aggregate as seen by the contracts.
pub type AggregateModel = (
    Date,
    Date,
    TallyModel,
    BucketsModel,
    Seq<(Seq<char>, Seq<(MonthYear, int)>)>,
);

pub open spec fn series_view(s: Seq<(MonthYear, i128)>) -> Seq<(MonthYear, int)> {
    s.map_values(|e: (MonthYear, i128)| (e.0, e.1 as int))
}

pub open spec fn grouped_view(g: Seq<(String, Vec<(MonthYear, i128)>)>) -> Seq<(Seq<char>, Seq<(MonthYear, int)>)> {
    g.map_values(|e: (String, Vec<(MonthYear, i128)>)| (e.0@, series_view(e.1@)))
}

impl Aggregate {
    pub open spec fn model(&self) -> AggregateModel {
        (
            self.start,
            self.end,
            tally_view(self.stats_summary@),
            buckets_view(self.stats_monthly@),
            grouped_view(self.stats_grouped@),
        )
    }
}

/// The entries of a month that are reported: the stable sort by descending
/// magnitude, cut after twenty.
pub open spec fn top_entries(t: TallyModel) -> TallyModel {
    let s = stable_sort(t, true);
    if s.len() <= MONTHLY_TOP { s } else { s.take(MONTHLY_TOP as int) }
}

/// The totals of group `g` in each month.
pub open spec fn series_of(b: BucketsModel, g: Seq<char>) -> Seq<(MonthYear, int)> {
    b.map_values(|e: (MonthYear, TallyModel)| (e.0, total_for(e.1, g)))
}

/// The accumulator: totals per group and per month and group, and the range
/// of dates seen.
pub struct Groups {
    matchers: Vec<(Pattern, String)>,
    totals: Vec<(String, i128)>,
    monthly: Vec<(MonthYear, Vec<(String, i128)>)>,
    start: Date,
    end: Date,
    count: u64,
    amounts: Ghost<Seq<int>>,
}

impl Groups {
    pub closed spec fn matchers_model(&self) -> Seq<(Seq<char>, Seq<char>)> {
        self.matchers@.map_values(|e: (Pattern, String)| (e.0@, e.1@))
    }

    /// Group name → running total, in order of first appearance.
    pub closed spec fn totals_model(&self) -> TallyModel {
        tally_view(self.totals@)
    }

    /// Per month, ascending: group name → running total.
    pub closed spec fn buckets_model(&self) -> BucketsModel {
        buckets_view(self.monthly@)
    }

    /// The earliest date seen.
    pub closed spec fn start_date(&self) -> Date {
        self.start
    }

    /// The latest date seen.
    pub closed spec fn end_date(&self) -> Date {
        self.end
    }

    /// The amounts pushed so far, in order.
    pub closed spec fn amounts(&self) -> Seq<int> {
        self.amounts@
    }

    pub closed spec fn wf(&self) -> bool {
        let bound = self.count as int * AMOUNT_BOUND;
        &&& self.count <= MAX_RECORDS
        &&& self.amounts@.len() == self.count
        &&& keys_unique(self.totals_model())
        &&& within(self.totals_model(), bound)
        &&& sum_totals(self.totals_model()) == sum_amounts(self.amounts@)
        &&& months_ascending(self.buckets_model())
        &&& forall|i: int|
            0 <= i < self.monthly@.len() ==> keys_unique(#[trigger] self.buckets_model()[i].1)
                && within(self.buckets_model()[i].1, bound)
    }

    /// Compiles the patterns in order; `Err` names the first that does not compile.
    pub fn new(config: &GroupConfig) -> (r: Result<Groups, String>)
        ensures
            match r {
                Ok(g) => {
                    &&& g.wf()
                    &&& forall|i: int|
                        0 <= i < config.parties@.len() ==> crate::text::regex_compiles(
                            #[trigger] config.parties@[i].0@,
                        )
                    &&& g.matchers_model() == config_view(config.parties@)
                    &&& g.totals_model().len() == 0
                    &&& g.buckets_model().len() == 0
                    &&& g.amounts().len() == 0
                    &&& g.start_date() == (Date { year: LATEST_YEAR, month: 12, day: 31 })
                    &&& g.end_date() == (Date { year: EARLIEST_YEAR, month: 1, day: 1 })
                },
                Err(p) => exists|i: int|
                    0 <= i < config.parties@.len() && p@ == config.parties@[i].0@
                        && !crate::text::regex_compiles(config.parties@[i].0@) && forall|j: int|
                        0 <= j < i ==> crate::text::regex_compiles(#[trigger] config.parties@[j].0@),
            },
    {
        let mut matchers: Vec<(Pattern, String)> = Vec::new();
        let n = config.parties.len();
        let mut i: usize = 0;
        while i < n
            invariant
                n == config.parties@.len(),
                i <= n,
                matchers@.len() == i,
                forall|j: int| 0 <= j < i ==> crate::text::regex_compiles(#[trigger] config.parties@[j].0@),
                forall|j: int|
                    0 <= j < i ==> (#[trigger] matchers@[j]).0@ == config.parties@[j].0@
                        && matchers@[j].1@ == config.parties@[j].1@,
            decreases n - i,
        {
            let source = config.parties[i].0.clone();
            match Pattern::new(source) {
                Some(p) => {
                    matchers.push((p, config.parties[i].1.clone()));
                },
                None => {
                    return Err(config.parties[i].0.clone());
                },
            }
            i = i + 1;
        }
        let g = Groups {
            matchers,
            totals: Vec::new(),
            monthly: Vec::new(),
            start: Date::latest(),
            end: Date::earliest(),
            count: 0,
            amounts: Ghost(Seq::empty()),
        };
        assert(g.matchers_model() =~= config_view(config.parties@));
        assert(g.totals_model() =~= Seq::<(Seq<char>, int)>::empty());
        assert(g.buckets_model() =~= Seq::<(MonthYear, TallyModel)>::empty());
        Ok(g)
    }

    /// What `aggregate` yields for this accumulator.
    pub open spec fn aggregate_model(&self) -> AggregateModel {
        let summary = stable_sort(self.totals_model(), false);
        (
            self.start_date(),
            self.end_date(),
            summary,
            self.buckets_model().map_values(|e: (MonthYear, TallyModel)| (e.0, top_entries(e.1))),
            summary.map_values(
                |e: (Seq<char>, int)| (e.0, series_of(self.buckets_model(), e.0)),
            ),
        )
    }

    /// What a well-formed accumulator guarantees of its totals and months.
    pub proof fn lemma_wf(&self)
        requires
            self.wf(),
        ensures
            sum_totals(self.totals_model()) == sum_amounts(self.amounts()),
            keys_unique(self.totals_model()),
            months_ascending(self.buckets_model()),
    {
    }

    /// How many transactions were pushed.
    pub fn pushed(&self) -> (r: u64)
        requires
            self.wf(),
        ensures
            r == self.amounts().len(),
    {
        self.count
    }

    /// The group of `party`, and whether a pattern matched.
    pub fn classify(&self, party: &String) -> (r: (String, bool))
        ensures
            r.0@ == group_of(self.matchers_model(), party@),
            r.1 == first_group(self.matchers_model(), lower_of(party@)) is Some,
    {
        let lower = lowercase(party.as_str());
        assert(lower@ == lower_of(party@));
        let ghost ms = self.matchers_model();
        let mut i: usize = 0;
        assert(ms.skip(0) =~= ms);
        while i < self.matchers.len()
            invariant
                i <= self.matchers@.len(),
                ms == self.matchers_model(),
                ms.len() == self.matchers@.len(),
                lower@ == lower_of(party@),
                first_group(ms, lower@) == first_group(ms.skip(i as int), lower@),
            decreases self.matchers@.len() - i,
        {
            proof {
                assert(ms.skip(i as int).drop_first() =~= ms.skip(i + 1));
                assert(ms.skip(i as int)[0] == ms[i as int]);
                assert(ms[i as int] == (self.matchers@[i as int].0@, self.matchers@[i as int].1@));
            }
            if self.matchers[i].0.is_match(lower.as_str()) {
                assert(first_group(ms.skip(i as int), lower@) == Some(ms[i as int].1));
                return (self.matchers[i].1.clone(), true);
            }
            i = i + 1;
        }
        (lower, false)
    }
}

impl Groups {
    /// Adds a transaction to the totals of its group, overall and in its
    /// month, and widens the date range to include it. Returns the group name
    /// when no pattern matched and the group is new, so that the missing
    /// mapping can be reported once.
    pub fn push(&mut self, record: &Record) -> (r: Option<String>)
        requires
            old(self).wf(),
            old(self).amounts().len() < MAX_RECORDS,
            amount_in_range(record.amount as int),
        ensures
            final(self).wf(),
            ({
                let g = group_of(old(self).matchers_model(), record.key_party());
                let a = record.amount as int;
                &&& final(self).matchers_model() == old(self).matchers_model()
                &&& final(self).totals_model() == add_to(old(self).totals_model(), g, a)
                &&& final(self).buckets_model() == add_to_month(
                    old(self).buckets_model(),
                    record.date.month_year_of(),
                    g,
                    a,
                )
                &&& final(self).start_date() == (if record.date.before(old(self).start_date()) {
                    record.date
                } else {
                    old(self).start_date()
                })
                &&& final(self).end_date() == (if old(self).end_date().before(record.date) {
                    record.date
                } else {
                    old(self).end_date()
                })
                &&& final(self).amounts() == old(self).amounts().push(a)
                &&& (r is Some) == (first_group(old(self).matchers_model(), lower_of(record.key_party())) is None
                    && key_index(old(self).totals_model(), g) is None)
                &&& (r matches Some(name) ==> name@ == g)
            }),
    {
        let ghost bound = self.count as int * AMOUNT_BOUND;
        let (g, matched) = self.classify(record.key());
        let is_new = find_key(&self.totals, &g).is_none();
        proof {
            assert forall|i: int| 0 <= i < self.totals@.len() && (#[trigger] self.totals@[i]).0@ == g@
                implies i128::MIN <= self.totals@[i].1 + record.amount <= i128::MAX by {
                assert(tally_view(self.totals@)[i].1 == self.totals@[i].1);
            }
            assert forall|i: int, j: int|
                0 <= i < self.monthly@.len() && 0 <= j < self.monthly@[i].1@.len() implies
                i128::MIN <= (#[trigger] self.monthly@[i].1@[j]).1 + record.amount <= i128::MAX by {
                assert(buckets_view(self.monthly@)[i].1 == tally_view(self.monthly@[i].1@));
                assert(within(buckets_view(self.monthly@)[i].1, bound));
                assert(tally_view(self.monthly@[i].1@)[j].1 == self.monthly@[i].1@[j].1);
            }
            lemma_add_to_sum(tally_view(self.totals@), g@, record.amount as int);
            lemma_add_to_within(tally_view(self.totals@), g@, record.amount as int, bound, AMOUNT_BOUND as int);
        }
        add_to_tally(&mut self.totals, &g, record.amount);
        let ghost old_buckets = buckets_view(self.monthly@);
        assert(old_buckets == old(self).buckets_model());
        add_to_bucket(&mut self.monthly, record.date.month_year(), &g, record.amount);
        proof {
            let nb = buckets_view(self.monthly@);
            let m = record.date.month_year_of();
            let c = choose|c: int| splits_at(old_buckets, m, c);
            assert(nb == add_to_month(old_buckets, m, g@, record.amount as int));
            if c < old_buckets.len() && old_buckets[c].0 == m {
                assert(nb == old_buckets.update(c, (m, add_to(old_buckets[c].1, g@, record.amount as int))));
            } else {
                assert(nb == old_buckets.insert(c, (m, seq![(g@, record.amount as int)])));
            }
            assert forall|i: int| 0 <= i < nb.len() implies within(#[trigger] nb[i].1, bound + AMOUNT_BOUND) by {
                if c < old_buckets.len() && old_buckets[c].0 == m {
                    assert(within(old_buckets[i].1, bound));
                    if i == c {
                        lemma_add_to_within(old_buckets[c].1, g@, record.amount as int, bound, AMOUNT_BOUND as int);
                    } else {
                        assert(nb[i] == old_buckets[i]);
                    }
                } else {
                    if i < c {
                        assert(within(old_buckets[i].1, bound));
                        assert(nb[i] == old_buckets[i]);
                    } else if i > c {
                        assert(within(old_buckets[i - 1].1, bound));
                        assert(nb[i] == old_buckets[i - 1]);
                    } else {
                        assert(nb[i].1 == seq![(g@, record.amount as int)]);
                    }
                }
            }
        }
        self.start = self.start.earlier(record.date);
        self.end = self.end.later(record.date);
        self.count = self.count + 1;
        self.amounts = Ghost(self.amounts@.push(record.amount as int));
        proof {
            assert(self.amounts@.drop_last() =~= old(self).amounts@);
            assert(self.count as int * AMOUNT_BOUND == bound + AMOUNT_BOUND);
        }
        if !matched && is_new {
            Some(g)
        } else {
            None
        }
    }
}

impl Groups {
    /// Consumes the accumulator into its summary, monthly and grouped views.
    pub fn aggregate(self) -> (r: Aggregate)
        requires
            self.wf(),
        ensures
            r.model() == self.aggregate_model(),
    {
        let summary = sort_tally(&self.totals, false);
        let n = self.monthly.len();
        let ghost bm = self.buckets_model();
        let mut monthly: Vec<(MonthYear, Vec<(String, i128)>)> = Vec::new();
        let mut i: usize = 0;
        assert(buckets_view(monthly@) =~= bm.take(0).map_values(|e: (MonthYear, TallyModel)| (e.0, top_entries(e.1))));
        while i < n
            invariant
                n == self.monthly@.len(),
                bm == buckets_view(self.monthly@),
                i <= n,
                buckets_view(monthly@) == bm.take(i as int).map_values(
                    |e: (MonthYear, TallyModel)| (e.0, top_entries(e.1)),
                ),
            decreases n - i,
        {
            let mut entries = sort_tally(&self.monthly[i].1, true);
            entries.truncate(MONTHLY_TOP);
            proof {
                assert(bm[i as int].1 == tally_view(self.monthly@[i as int].1@));
                assert(tally_view(entries@) =~= top_entries(bm[i as int].1));
            }
            let ghost prev = buckets_view(monthly@);
            monthly.push((self.monthly[i].0, entries));
            proof {
                assert(buckets_view(monthly@) =~= prev.push((bm[i as int].0, top_entries(bm[i as int].1))));
                assert(bm.take(i + 1).map_values(|e: (MonthYear, TallyModel)| (e.0, top_entries(e.1)))
                    =~= bm.take(i as int).map_values(|e: (MonthYear, TallyModel)| (e.0, top_entries(e.1))).push(
                    (bm[i as int].0, top_entries(bm[i as int].1))));
            }
            i = i + 1;
        }
        let ghost sv = tally_view(summary@);
        let m = summary.len();
        let mut grouped: Vec<(String, Vec<(MonthYear, i128)>)> = Vec::new();
        let mut g: usize = 0;
        assert(grouped_view(grouped@) =~= sv.take(0).map_values(|e: (Seq<char>, int)| (e.0, series_of(bm, e.0))));
        while g < m
            invariant
                n == self.monthly@.len(),
                bm == buckets_view(self.monthly@),
                m == summary@.len(),
                sv == tally_view(summary@),
                g <= m,
                forall|x: int| 0 <= x < n ==> keys_unique(#[trigger] bm[x].1),
                grouped_view(grouped@) == sv.take(g as int).map_values(
                    |e: (Seq<char>, int)| (e.0, series_of(bm, e.0)),
                ),
            decreases m - g,
        {
            let name = summary[g].0.clone();
            assert(name@ == sv[g as int].0);
            let mut series: Vec<(MonthYear, i128)> = Vec::new();
            let mut j: usize = 0;
            assert(series_view(series@) =~= series_of(bm, name@).take(0));
            while j < n
                invariant
                    n == self.monthly@.len(),
                    bm == buckets_view(self.monthly@),
                    j <= n,
                    forall|x: int| 0 <= x < n ==> keys_unique(#[trigger] bm[x].1),
                    series_view(series@) == series_of(bm, name@).take(j as int),
                decreases n - j,
            {
                assert(bm[j as int].1 == tally_view(self.monthly@[j as int].1@));
                let t = total_of(&self.monthly[j].1, &name);
                let ghost prev = series_view(series@);
                series.push((self.monthly[j].0, t));
                proof {
                    assert(series_view(series@) =~= prev.push((bm[j as int].0, t as int)));
                    assert(series_of(bm, name@).take(j + 1) =~= series_of(bm, name@).take(j as int).push(
                        (bm[j as int].0, total_for(bm[j as int].1, name@))));
                }
                j = j + 1;
            }
            proof {
                assert(series_of(bm, name@).take(n as int) =~= series_of(bm, name@));
                assert(sv.take(g + 1) =~= sv.take(g as int).push(sv[g as int]));
            }
            let ghost prev = grouped_view(grouped@);
            let ghost entry = (name@, series_view(series@));
            grouped.push((name, series));
            proof {
                assert(grouped_view(grouped@) =~= prev.push(entry));
                assert(sv.take(g + 1).map_values(|e: (Seq<char>, int)| (e.0, series_of(bm, e.0)))
                    =~= sv.take(g as int).map_values(|e: (Seq<char>, int)| (e.0, series_of(bm, e.0))).push(
                    (sv[g as int].0, series_of(bm, sv[g as int].0))));
            }
            g = g + 1;
        }
        proof {
            assert(bm.take(n as int) =~= bm);
            assert(sv.take(m as int) =~= sv);
        }
        Aggregate {
            start: self.start,
            end: self.end,
            stats_summary: summary,
            stats_monthly: monthly,
            stats_grouped: grouped,
        }
    }
}

} // verus!
