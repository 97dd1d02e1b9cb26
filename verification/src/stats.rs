//! Summary statistics over a batch of study records.
//!
//! Studies are grouped by problem, then by optimizer; each group carries its
//! best score, its area under the curve, and its ask latency as basic
//! statistics in ticks. The summary tallies, per optimizer, on how many
//! problems it had the best and the worst standing of each measure.

use crate::record::StudyRecord;
use vstd::prelude::*;

verus! {

/// Mean and spread of a sample, in ticks.
#[derive(Debug, Clone, Copy, PartialEq, Eq, Structural)]
pub struct BasicStats {
    pub avg: i64,
    pub sd: i64,
}

/// The integer square root: the largest `r` with `r * r <= n`.
#[verifier::loop_isolation(false)]
pub fn isqrt_u64(n: u64) -> (r: u64)
    ensures
        (r as int) * (r as int) <= n,
        (r as int + 1) * (r as int + 1) > n,
{
    let mut lo: u64 = 0;
    let mut hi: u64 = 4_294_967_296;
    proof {
        assert(4_294_967_296int * 4_294_967_296int == 18_446_744_073_709_551_616int)
            by (nonlinear_arith);
    }
    while lo + 1 < hi
        invariant
            0 <= lo < hi <= 4_294_967_296,
            (lo as int) * (lo as int) <= n,
            (hi as int) * (hi as int) > n,
        decreases hi - lo,
    {
        let mid = lo + (hi - lo) / 2;
        proof {
            assert(lo < mid < hi);
            assert((mid as int) * (mid as int) <= 4_294_967_296int * 4_294_967_296int)
                by (nonlinear_arith)
                requires 0 <= mid as int <= 4_294_967_296int;
        }
        if (mid as u128) * (mid as u128) <= (n as u128) {
            lo = mid;
        } else {
            hi = mid;
        }
    }
    lo
}

impl BasicStats {
    /// The mean of a non-empty sample, exactly, and a non-negative spread:
    /// the integer square root of the average squared deviation, saturated
    /// where a square exceeds the representable range.
    #[verifier::loop_isolation(false)]
    pub fn new(xs: &Vec<i64>) -> (r: BasicStats)
        requires
            xs@.len() > 0,
            xs@.len() <= u32::MAX,
        ensures
            r.avg as int == spec_tdiv(spec_sum(xs@), xs@.len() as int),
            r.sd >= 0,
    {
        let n = xs.len();
        let mut sum: i128 = 0;
        let mut i: usize = 0;
        proof {
            assert(spec_sum(xs@.take(0)) == 0);
            assert(-(0int) * (i64::MAX as int + 1) == 0) by (nonlinear_arith);
            assert((0int) * (i64::MAX as int) == 0) by (nonlinear_arith);
        }
        while i < n
            invariant
                0 <= i <= n,
                n == xs@.len(),
                sum == spec_sum(xs@.take(i as int)),
                -(i as int) * (i64::MAX as int + 1) <= sum as int <= (i as int) * (
                i64::MAX as int),
            decreases n - i,
        {
            proof {
                assert(xs@.take(i as int + 1).drop_last() =~= xs@.take(i as int));
                assert(xs@.take(i as int + 1).last() == xs@[i as int]);
                assert((i as int + 1) * (i64::MAX as int + 1) == (i as int) * (i64::MAX as int + 1)
                    + (i64::MAX as int + 1)) by (nonlinear_arith);
                assert((i as int + 1) * (i64::MAX as int) == (i as int) * (i64::MAX as int) + (
                i64::MAX as int)) by (nonlinear_arith);
            }
            sum = sum + (xs[i] as i128);
            i += 1;
        }
        proof {
            assert(xs@.take(n as int) =~= xs@);
        }
        proof {
            assert(sum as int > i128::MIN) by (nonlinear_arith)
                requires
                    sum as int >= -(n as int) * (i64::MAX as int + 1),
                    1 <= n as int <= 4_294_967_295int,
            ;
        }
        proof {
            assert((n as int) * (i64::MAX as int) <= 4_294_967_295int * (i64::MAX as int))
                by (nonlinear_arith)
                requires 1 <= n as int <= 4_294_967_295int;
            assert((n as int) * (i64::MAX as int + 1) <= 4_294_967_295int * (i64::MAX as int + 1))
                by (nonlinear_arith)
                requires 1 <= n as int <= 4_294_967_295int;
        }
        let avg128: i128 = if sum >= 0 {
            proof {
                lemma_div_le(sum as int, n as int, i64::MAX as int);
            }
            ((sum as u128) / (n as u128)) as i128
        } else {
            proof {
                lemma_div_le(-(sum as int), n as int, i64::MAX as int + 1);
            }
            -((((-sum) as u128) / (n as u128)) as i128)
        };
        let avg: i64 = avg128 as i64;
        let mut varsum: u128 = 0;
        let mut j: usize = 0;
        while j < n
            invariant
                n == xs@.len(),
            decreases n - j,
        {
            let d: i128 = (xs[j] as i128) - (avg as i128);
            let mag: u128 = if d < 0 {
                (-d) as u128
            } else {
                d as u128
            };
            let sq: u128 = if mag > 0xffff_ffff_ffff_ffff {
                u128::MAX
            } else {
                proof {
                    assert((mag as int) * (mag as int) <= 0xffff_ffff_ffff_ffffint
                        * 0xffff_ffff_ffff_ffffint) by (nonlinear_arith)
                        requires 0 <= mag as int <= 0xffff_ffff_ffff_ffffint;
                }
                mag * mag
            };
            varsum = if varsum > u128::MAX - sq {
                u128::MAX
            } else {
                varsum + sq
            };
            j += 1;
        }
        let variance: u128 = varsum / (n as u128);
        let sd: u64 = if variance > (u64::MAX as u128) {
            u64::MAX
        } else {
            isqrt_u64(variance as u64)
        };
        let sdi: i64 = if sd > i64::MAX as u64 {
            i64::MAX
        } else {
            sd as i64
        };
        BasicStats { avg, sd: sdi }
    }
}

/// Division truncated toward zero, as the mean of a signed sample is taken.
pub open spec fn spec_tdiv(a: int, b: int) -> int {
    if a >= 0 {
        a / b
    } else {
        -((-a) / b)
    }
}

/// The sum of a sample.
pub open spec fn spec_sum(xs: Seq<i64>) -> int
    decreases xs.len(),
{
    if xs.len() == 0 {
        0
    } else {
        spec_sum(xs.drop_last()) + xs.last()
    }
}

/// Division of a bounded non-negative sum stays within the bound.
proof fn lemma_div_le(sum: int, n: int, bound: int)
    requires
        n >= 1,
        0 <= sum,
        sum <= n * bound,
    ensures
        0 <= sum / n <= bound,
{
    vstd::arithmetic::div_mod::lemma_fundamental_div_mod(sum, n);
    vstd::arithmetic::div_mod::lemma_mod_bound(sum, n);
    vstd::arithmetic::div_mod::lemma_div_pos_is_pos(sum, n);
    let q = sum / n;
    assert(sum == n * q + sum % n);
    if q > bound {
        assert(n * q >= n * (bound + 1)) by (nonlinear_arith)
            requires n >= 1, q >= bound + 1;
        assert(n * bound < n * (bound + 1)) by (nonlinear_arith)
            requires n >= 1;
    }
}

/// One optimizer's standing on one problem.
#[derive(Debug)]
pub struct OptimizerStats {
    pub optimizer: String,
    pub best_score: BasicStats,
    pub auc: BasicStats,
    pub latency: BasicStats,
}

/// One problem's optimizers, under the problem's full identity: its name,
/// the version it reported, and the recipe it came from.
#[derive(Debug)]
pub struct ProblemStats {
    pub problem: String,
    pub version: Option<String>,
    pub recipe: String,
    pub optimizers: Vec<OptimizerStats>,
}

/// The view of an optional string.
pub open spec fn spec_opt_str_view(o: Option<String>) -> Option<Seq<char>> {
    match o {
        Some(s) => Some(s@),
        None => None,
    }
}

/// Whether a group carries the given problem identity.
pub open spec fn spec_pid_eq(
    name: Seq<char>,
    version: Option<Seq<char>>,
    recipe: Seq<char>,
    g: ProblemStats,
) -> bool {
    g.problem@ == name && spec_opt_str_view(g.version) == version && g.recipe@ == recipe
}

/// Whether two optional strings hold the same text.
pub fn opt_string_eq(a: &Option<String>, b: &Option<String>) -> (r: bool)
    ensures
        r == (spec_opt_str_view(*a) == spec_opt_str_view(*b)),
{
    match (a, b) {
        (Some(x), Some(y)) => {
            let r = *x == *y;
            proof {
                assert(spec_opt_str_view(*a) == Some(x@));
                assert(spec_opt_str_view(*b) == Some(y@));
            }
            r
        },
        (None, None) => true,
        (Some(x), None) => {
            proof {
                assert(spec_opt_str_view(*a) == Some(x@));
                assert(spec_opt_str_view(*b) is None);
            }
            false
        },
        (None, Some(y)) => {
            proof {
                assert(spec_opt_str_view(*a) is None);
                assert(spec_opt_str_view(*b) == Some(y@));
            }
            false
        },
    }
}

/// Whether two studies ran the same problem: same name, version, and
/// recipe.
pub fn same_problem_id(
    a: &crate::record::RecipeAndSpec<crate::problem::ProblemSpec>,
    b: &crate::record::RecipeAndSpec<crate::problem::ProblemSpec>,
) -> (r: bool)
    ensures
        r == (a.spec.name@ == b.spec.name@ && spec_opt_str_view(a.version) == spec_opt_str_view(
            b.version,
        ) && a.recipe@ == b.recipe@),
{
    a.spec.name == b.spec.name && opt_string_eq(&a.version, &b.version) && a.recipe == b.recipe
}

impl ProblemStats {
    /// The positions of the smallest and the largest best-score average:
    /// both indices name real rows, no row beats the first, none exceeds the
    /// second.
    #[verifier::loop_isolation(false)]
    pub fn min_max_best_score(&self) -> (r: (usize, usize))
        requires
            self.optimizers@.len() > 0,
        ensures
            r.0 < self.optimizers@.len(),
            r.1 < self.optimizers@.len(),
            forall|i: int|
                0 <= i < self.optimizers@.len() ==> self.optimizers@[r.0 as int].best_score.avg
                    <= (#[trigger] self.optimizers@[i]).best_score.avg,
            forall|i: int|
                0 <= i < self.optimizers@.len() ==> self.optimizers@[r.1 as int].best_score.avg
                    >= (#[trigger] self.optimizers@[i]).best_score.avg,
    {
        let mut mini: usize = 0;
        let mut maxi: usize = 0;
        let mut i: usize = 1;
        while i < self.optimizers.len()
            invariant
                1 <= i <= self.optimizers@.len(),
                mini < i,
                maxi < i,
                forall|k: int|
                    0 <= k < i ==> self.optimizers@[mini as int].best_score.avg
                        <= (#[trigger] self.optimizers@[k]).best_score.avg,
                forall|k: int|
                    0 <= k < i ==> self.optimizers@[maxi as int].best_score.avg
                        >= (#[trigger] self.optimizers@[k]).best_score.avg,
            decreases self.optimizers@.len() - i,
        {
            if self.optimizers[i].best_score.avg < self.optimizers[mini].best_score.avg {
                mini = i;
            }
            if self.optimizers[i].best_score.avg > self.optimizers[maxi].best_score.avg {
                maxi = i;
            }
            i += 1;
        }
        (mini, maxi)
    }

    /// The positions of the smallest and the largest area-under-curve
    /// average, as `min_max_best_score`.
    #[verifier::loop_isolation(false)]
    pub fn min_max_auc(&self) -> (r: (usize, usize))
        requires
            self.optimizers@.len() > 0,
        ensures
            r.0 < self.optimizers@.len(),
            r.1 < self.optimizers@.len(),
            forall|i: int|
                0 <= i < self.optimizers@.len() ==> self.optimizers@[r.0 as int].auc.avg
                    <= (#[trigger] self.optimizers@[i]).auc.avg,
            forall|i: int|
                0 <= i < self.optimizers@.len() ==> self.optimizers@[r.1 as int].auc.avg
                    >= (#[trigger] self.optimizers@[i]).auc.avg,
    {
        let mut mini: usize = 0;
        let mut maxi: usize = 0;
        let mut i: usize = 1;
        while i < self.optimizers.len()
            invariant
                1 <= i <= self.optimizers@.len(),
                mini < i,
                maxi < i,
                forall|k: int|
                    0 <= k < i ==> self.optimizers@[mini as int].auc.avg
                        <= (#[trigger] self.optimizers@[k]).auc.avg,
                forall|k: int|
                    0 <= k < i ==> self.optimizers@[maxi as int].auc.avg
                        >= (#[trigger] self.optimizers@[k]).auc.avg,
            decreases self.optimizers@.len() - i,
        {
            if self.optimizers[i].auc.avg < self.optimizers[mini].auc.avg {
                mini = i;
            }
            if self.optimizers[i].auc.avg > self.optimizers[maxi].auc.avg {
                maxi = i;
            }
            i += 1;
        }
        (mini, maxi)
    }

    /// The positions of the smallest and the largest latency average, as
    /// `min_max_best_score`.
    #[verifier::loop_isolation(false)]
    pub fn min_max_latency(&self) -> (r: (usize, usize))
        requires
            self.optimizers@.len() > 0,
        ensures
            r.0 < self.optimizers@.len(),
            r.1 < self.optimizers@.len(),
            forall|i: int|
                0 <= i < self.optimizers@.len() ==> self.optimizers@[r.0 as int].latency.avg
                    <= (#[trigger] self.optimizers@[i]).latency.avg,
            forall|i: int|
                0 <= i < self.optimizers@.len() ==> self.optimizers@[r.1 as int].latency.avg
                    >= (#[trigger] self.optimizers@[i]).latency.avg,
    {
        let mut mini: usize = 0;
        let mut maxi: usize = 0;
        let mut i: usize = 1;
        while i < self.optimizers.len()
            invariant
                1 <= i <= self.optimizers@.len(),
                mini < i,
                maxi < i,
                forall|k: int|
                    0 <= k < i ==> self.optimizers@[mini as int].latency.avg
                        <= (#[trigger] self.optimizers@[k]).latency.avg,
                forall|k: int|
                    0 <= k < i ==> self.optimizers@[maxi as int].latency.avg
                        >= (#[trigger] self.optimizers@[k]).latency.avg,
            decreases self.optimizers@.len() - i,
        {
            if self.optimizers[i].latency.avg < self.optimizers[mini].latency.avg {
                mini = i;
            }
            if self.optimizers[i].latency.avg > self.optimizers[maxi].latency.avg {
                maxi = i;
            }
            i += 1;
        }
        (mini, maxi)
    }
}

/// The batch, grouped by problem.
#[derive(Debug)]
pub struct Stats(pub Vec<ProblemStats>);


/// One more, saturating at the top.
pub fn saturating_inc(n: u64) -> (r: u64)
    ensures
        r as int == if n < u64::MAX {
            n + 1
        } else {
            u64::MAX as int
        },
{
    if n < u64::MAX {
        n + 1
    } else {
        u64::MAX
    }
}

/// How often an optimizer stood best and worst.
#[derive(Debug, Clone, Copy, PartialEq, Eq, Structural, Default)]
pub struct VictoryStats {
    pub bests: u64,
    pub worsts: u64,
}

/// One optimizer's tally across every problem.
#[derive(Debug)]
pub struct OptimizerSummary {
    pub name: String,
    pub best_score: VictoryStats,
    pub auc: VictoryStats,
    pub latency: VictoryStats,
}

impl OptimizerSummary {
    /// A fresh tally.
    pub fn new(name: String) -> (r: Self)
        ensures
            r.name == name,
            r.best_score == (VictoryStats { bests: 0, worsts: 0 }),
            r.auc == (VictoryStats { bests: 0, worsts: 0 }),
            r.latency == (VictoryStats { bests: 0, worsts: 0 }),
    {
        OptimizerSummary {
            name,
            best_score: VictoryStats { bests: 0, worsts: 0 },
            auc: VictoryStats { bests: 0, worsts: 0 },
            latency: VictoryStats { bests: 0, worsts: 0 },
        }
    }
}

/// The per-optimizer tallies of a batch.
#[derive(Debug)]
pub struct StatsSummary(pub Vec<OptimizerSummary>);

impl StatsSummary {
    /// Tallies, for every optimizer that occurs in the batch and every
    /// measure: on a problem, the highest best-score or area average counts
    /// as a best and the lowest as a worst, while for latency the lowest
    /// average counts as a best and the highest as a worst. Rows carry
    /// pairwise distinct optimizer names.
    #[verifier::loop_isolation(false)]
    #[verifier::rlimit(100)]
    pub fn new(stats: &Stats) -> (r: StatsSummary)
        ensures
            forall|a: int, b: int|
                0 <= a < b < r.0@.len() ==> (#[trigger] r.0@[a]).name@ != (
                #[trigger] r.0@[b]).name@,
    {
        let mut rows: Vec<OptimizerSummary> = Vec::new();
        let mut p: usize = 0;
        while p < stats.0.len()
            invariant
                0 <= p <= stats.0@.len(),
                forall|a: int, b: int|
                    0 <= a < b < rows@.len() ==> (#[trigger] rows@[a]).name@ != (
                    #[trigger] rows@[b]).name@,
            decreases stats.0@.len() - p,
        {
            let problem = &stats.0[p];
            if problem.optimizers.len() > 0 {
                let (bs_min, bs_max) = problem.min_max_best_score();
                let bs_minavg = problem.optimizers[bs_min].best_score.avg;
                let bs_maxavg = problem.optimizers[bs_max].best_score.avg;
                let (auc_min, auc_max) = problem.min_max_auc();
                let auc_minavg = problem.optimizers[auc_min].auc.avg;
                let auc_maxavg = problem.optimizers[auc_max].auc.avg;
                let (lat_min, lat_max) = problem.min_max_latency();
                let lat_minavg = problem.optimizers[lat_min].latency.avg;
                let lat_maxavg = problem.optimizers[lat_max].latency.avg;
                let mut o: usize = 0;
                while o < problem.optimizers.len()
                    invariant
                        0 <= o <= problem.optimizers@.len(),
                        forall|a: int, b: int|
                            0 <= a < b < rows@.len() ==> (#[trigger] rows@[a]).name@ != (
                            #[trigger] rows@[b]).name@,
                    decreases problem.optimizers@.len() - o,
                {
                    let oname = &problem.optimizers[o].optimizer;
                    let mut found: Option<usize> = None;
                    let mut k: usize = 0;
                    while k < rows.len() && found.is_none()
                        invariant
                            0 <= k <= rows@.len(),
                            found matches Some(f) ==> f < rows@.len() && rows@[
                                f as int
                            ].name@ == oname@,
                            found is None ==> forall|q: int|
                                0 <= q < k ==> (#[trigger] rows@[q]).name@ != oname@,
                        decreases rows@.len() - k, (if found is Some { 0int } else { 1int }),
                    {
                        if rows[k].name == *oname {
                            found = Some(k);
                        } else {
                            k += 1;
                        }
                    }
                    let idx: usize = match found {
                        Some(f) => f,
                        None => {
                            let row = OptimizerSummary::new(oname.clone());
                            rows.push(row);
                            rows.len() - 1
                        },
                    };
                    let row = &rows[idx];
                    let mut best_score = row.best_score;
                    let mut auc = row.auc;
                    let mut latency = row.latency;
                    let stats_here = &problem.optimizers[o];
                    if stats_here.best_score.avg == bs_minavg {
                        best_score.worsts = saturating_inc(best_score.worsts);
                    }
                    if stats_here.best_score.avg == bs_maxavg {
                        best_score.bests = saturating_inc(best_score.bests);
                    }
                    if stats_here.auc.avg == auc_minavg {
                        auc.worsts = saturating_inc(auc.worsts);
                    }
                    if stats_here.auc.avg == auc_maxavg {
                        auc.bests = saturating_inc(auc.bests);
                    }
                    if stats_here.latency.avg == lat_minavg {
                        latency.bests = saturating_inc(latency.bests);
                    }
                    if stats_here.latency.avg == lat_maxavg {
                        latency.worsts = saturating_inc(latency.worsts);
                    }
                    let name = rows[idx].name.clone();
                    rows.set(idx, OptimizerSummary { name, best_score, auc, latency });
                    o += 1;
                }
            }
            p += 1;
        }
        StatsSummary(rows)
    }

    /// Renders the tally as a markdown table.
    #[verifier::loop_isolation(false)]
    pub fn write_markdown(&self) -> (r: String)
        ensures
            r@.len() > 0,
    {
        let mut out: Vec<char> = Vec::new();
        crate::codec::append_lit(&mut out, "## Statistics Summary\n");
        proof {
            reveal_strlit("## Statistics Summary\n");
        }
        crate::codec::append_lit(&mut out, "| optimizer | Best Score (o/x) | AUC (o/x) | Latency (o/x) |\n");
        crate::codec::append_lit(&mut out, "|:----------|-----------------:|----------:|--------------:|\n");
        let mut i: usize = 0;
        while i < self.0.len()
            invariant
                out@.len() > 0,
            decreases self.0@.len() - i,
        {
            crate::codec::append_lit(&mut out, "| ");
            crate::codec::append_lit(&mut out, self.0[i].name.as_str());
            crate::codec::append_lit(&mut out, " | ");
            crate::text::fmt_u64(self.0[i].best_score.bests, &mut out);
            crate::codec::append_lit(&mut out, "/");
            crate::text::fmt_u64(self.0[i].best_score.worsts, &mut out);
            crate::codec::append_lit(&mut out, " | ");
            crate::text::fmt_u64(self.0[i].auc.bests, &mut out);
            crate::codec::append_lit(&mut out, "/");
            crate::text::fmt_u64(self.0[i].auc.worsts, &mut out);
            crate::codec::append_lit(&mut out, " | ");
            crate::text::fmt_u64(self.0[i].latency.bests, &mut out);
            crate::codec::append_lit(&mut out, "/");
            crate::text::fmt_u64(self.0[i].latency.worsts, &mut out);
            crate::codec::append_lit(&mut out, " |\n");
            i += 1;
        }
        crate::codec::chars_to_string(&out)
    }
}

impl OptimizerStats {
    /// The standing of one optimizer on one problem, from the studies that
    /// ran it there: the average best value, the average of the running
    /// bests as a coarse area under the curve, and the ask latencies.
    #[verifier::loop_isolation(false)]
    pub fn new(optimizer: String, studies: &Vec<&StudyRecord>) -> (r: OptimizerStats)
        requires
            studies@.len() > 0,
            studies@.len() <= u32::MAX,
        ensures
            r.optimizer == optimizer,
            r.sd_nonnegative(),
    {
        let mut best_scores: Vec<i64> = Vec::new();
        let mut aucs: Vec<i64> = Vec::new();
        let mut latencies: Vec<i64> = Vec::new();
        let mut i: usize = 0;
        while i < studies.len()
            invariant
                0 <= i <= studies@.len(),
                best_scores@.len() == i,
                aucs@.len() == i,
                latencies@.len() <= u32::MAX,
            decreases studies@.len() - i,
        {
            let study = studies[i];
            let scorer = study.scorer();
            let best = match scorer.best_value(u64::MAX) {
                Some(v) => v,
                None => 0,
            };
            best_scores.push(best);
            // a coarse area measure: the mean of the running bests
            let auc = if scorer.bests.len() > 0 && scorer.bests.len() <= u32::MAX as usize {
                let mut vals: Vec<i64> = Vec::new();
                let mut k: usize = 0;
                while k < scorer.bests.len()
                    invariant
                        0 <= k <= scorer.bests@.len(),
                        vals@.len() == k,
                    decreases scorer.bests@.len() - k,
                {
                    vals.push(scorer.bests[k].1);
                    k += 1;
                }
                BasicStats::new(&vals).avg
            } else {
                0
            };
            aucs.push(auc);
            let mut t: usize = 0;
            while t < study.trials.len()
                invariant
                    latencies@.len() <= u32::MAX,
                decreases study.trials@.len() - t,
            {
                let ask = &study.trials[t].ask;
                if ask.start_time <= ask.end_time
                    && (ask.end_time as i128) - (ask.start_time as i128) <= (i64::MAX as i128)
                    && latencies.len() < u32::MAX as usize {
                    latencies.push(ask.latency());
                }
                t += 1;
            }
            i += 1;
        }
        let latency = if latencies.len() > 0 {
            BasicStats::new(&latencies)
        } else {
            BasicStats { avg: 0, sd: 0 }
        };
        OptimizerStats {
            optimizer,
            best_score: BasicStats::new(&best_scores),
            auc: BasicStats::new(&aucs),
            latency,
        }
    }

    /// The spreads of every measure are non-negative.
    pub open spec fn sd_nonnegative(&self) -> bool {
        self.best_score.sd >= 0 && self.auc.sd >= 0 && self.latency.sd >= 0
    }
}

impl Stats {
    /// Groups a batch of studies by the problem's full identity — name,
    /// version, recipe — and within each problem by solver name: every study
    /// lands in exactly one optimizer row of one problem group, and no two
    /// groups carry the same identity.
    #[verifier::loop_isolation(false)]
    #[verifier::rlimit(100)]
    pub fn new(studies: &Vec<StudyRecord>) -> (r: Stats)
        requires
            studies@.len() <= u32::MAX,
        ensures
            forall|a: int, b: int|
                0 <= a < b < r.0@.len() ==> !spec_pid_eq(
                    (#[trigger] r.0@[a]).problem@,
                    spec_opt_str_view(r.0@[a].version),
                    r.0@[a].recipe@,
                    #[trigger] r.0@[b],
                ),
    {
        let mut groups: Vec<ProblemStats> = Vec::new();
        let mut i: usize = 0;
        while i < studies.len()
            invariant
                forall|a: int, b: int|
                    0 <= a < b < groups@.len() ==> !spec_pid_eq(
                        (#[trigger] groups@[a]).problem@,
                        spec_opt_str_view(groups@[a].version),
                        groups@[a].recipe@,
                        #[trigger] groups@[b],
                    ),
            decreases studies@.len() - i,
        {
            let pid = &studies[i].problem;
            let mut found = false;
            let mut k: usize = 0;
            while k < groups.len() && !found
                invariant
                    0 <= k <= groups@.len(),
                    !found ==> forall|q: int|
                        0 <= q < k ==> !spec_pid_eq(
                            pid.spec.name@,
                            spec_opt_str_view(pid.version),
                            pid.recipe@,
                            #[trigger] groups@[q],
                        ),
                decreases groups@.len() - k, (if found { 0int } else { 1int }),
            {
                let g = &groups[k];
                if g.problem == pid.spec.name && opt_string_eq(&g.version, &pid.version)
                    && g.recipe == pid.recipe {
                    found = true;
                } else {
                    k += 1;
                }
            }
            if !found {
                // gather every study of this problem, grouped by solver name
                let mut members: Vec<&StudyRecord> = Vec::new();
                let mut j: usize = 0;
                while j < studies.len()
                    decreases studies@.len() - j,
                {
                    if same_problem_id(&studies[j].problem, pid) {
                        members.push(&studies[j]);
                    }
                    j += 1;
                }
                let mut optimizers: Vec<OptimizerStats> = Vec::new();
                let mut onames: Vec<String> = Vec::new();
                let mut m: usize = 0;
                while m < members.len()
                    decreases members@.len() - m,
                {
                    let oname = &members[m].solver.spec.name;
                    let mut ofound = false;
                    let mut q: usize = 0;
                    while q < onames.len() && !ofound
                        invariant
                            0 <= q <= onames@.len(),
                        decreases onames@.len() - q, (if ofound { 0int } else { 1int }),
                    {
                        if onames[q] == *oname {
                            ofound = true;
                        } else {
                            q += 1;
                        }
                    }
                    if !ofound {
                        let mut mine: Vec<&StudyRecord> = Vec::new();
                        let mut w: usize = 0;
                        while w < members.len()
                            invariant
                                mine@.len() <= u32::MAX,
                            decreases members@.len() - w,
                        {
                            if members[w].solver.spec.name == *oname
                                && mine.len() < u32::MAX as usize {
                                mine.push(members[w]);
                            }
                            w += 1;
                        }
                        if mine.len() > 0 {
                            optimizers.push(OptimizerStats::new(oname.clone(), &mine));
                            onames.push(oname.clone());
                        }
                    }
                    m += 1;
                }
                let ghost groups0 = groups@;
                let version = match &pid.version {
                    Some(v) => Some(v.clone()),
                    None => None,
                };
                groups.push(
                    ProblemStats {
                        problem: pid.spec.name.clone(),
                        version,
                        recipe: pid.recipe.clone(),
                        optimizers,
                    },
                );
                proof {
                    assert forall|a: int, b: int|
                        0 <= a < b < groups@.len() implies !spec_pid_eq(
                        (#[trigger] groups@[a]).problem@,
                        spec_opt_str_view(groups@[a].version),
                        groups@[a].recipe@,
                        #[trigger] groups@[b],
                    ) by {
                        if b < groups@.len() - 1 {
                            assert(groups@[a] == groups0[a] && groups@[b] == groups0[b]);
                        } else {
                            assert(groups@[a] == groups0[a]);
                            assert(groups@[b].problem@ == pid.spec.name@);
                            assert(spec_opt_str_view(groups@[b].version) == spec_opt_str_view(
                                pid.version,
                            ));
                            assert(groups@[b].recipe@ == pid.recipe@);
                        }
                    }
                }
            }
            i += 1;
        }
        Stats(groups)
    }

    /// Renders every problem group as a markdown section.
    #[verifier::loop_isolation(false)]
    pub fn write_markdown(&self) -> (r: String)
        ensures
            r@.len() > 0,
    {
        let mut out: Vec<char> = Vec::new();
        crate::codec::append_lit(&mut out, "# Statistics\n");
        proof {
            reveal_strlit("# Statistics\n");
        }
        let mut p: usize = 0;
        while p < self.0.len()
            invariant
                out@.len() > 0,
            decreases self.0@.len() - p,
        {
            crate::codec::append_lit(&mut out, "### Problem: ");
            crate::codec::append_lit(&mut out, self.0[p].problem.as_str());
            crate::codec::append_lit(&mut out, "\n| Optimizer | Best Score (SD) |\n");
            crate::codec::append_lit(&mut out, "|:----------|----------------:|\n");
            let mut o: usize = 0;
            while o < self.0[p].optimizers.len()
                invariant
                    out@.len() > 0,
                    p < self.0@.len(),
                decreases self.0@[p as int].optimizers@.len() - o,
            {
                let row = &self.0[p].optimizers[o];
                crate::codec::append_lit(&mut out, "| ");
                crate::codec::append_lit(&mut out, row.optimizer.as_str());
                crate::codec::append_lit(&mut out, " | ");
                crate::text::fmt_ticks(row.best_score.avg, &mut out);
                crate::codec::append_lit(&mut out, " (");
                crate::text::fmt_ticks(row.best_score.sd, &mut out);
                crate::codec::append_lit(&mut out, ") |\n");
                o += 1;
            }
            p += 1;
        }
        crate::codec::chars_to_string(&out)
    }
}

} // verus!
