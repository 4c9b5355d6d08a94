//! Latency percentiles and the summary of recent query timings that the
//! status command prints.
use vstd::prelude::*;
use vstd::relations::{sorted_by, total_ordering};

use crate::overlay_session::keep_last;
use crate::runtime::QueryProfileSample;
use crate::text;

verus! {

broadcast use {vstd::multiset::group_multiset_axioms, vstd::seq_lib::group_to_multiset_ensures};

/// `<=` on `u128`, the order percentiles are taken in.
pub open spec fn u128_leq() -> spec_fn(u128, u128) -> bool {
    |a: u128, b: u128| a <= b
}

/// The values in ascending order.
pub open spec fn ascending(values: Seq<u128>) -> Seq<u128> {
    values.sort_by(u128_leq())
}

/// The position of the `percent`-th percentile among `n` values in ascending
/// order: `(n - 1) * percent / 100` rounded to the nearest index, halves up;
/// a percent above 100 counts as 100.
pub open spec fn percentile_index(n: int, percent: int) -> int {
    let p = if percent > 100 { 100 } else { percent };
    if n <= 0 { 0 } else { ((n - 1) * p + 50) / 100 }
}

/// The `percent`-th percentile of `values` (0 when there are none).
pub open spec fn percentile(values: Seq<u128>, percent: int) -> u128 {
    if values.len() == 0 {
        0
    } else {
        ascending(values)[percentile_index(values.len() as int, percent)]
    }
}

proof fn lemma_leq_total()
    ensures
        total_ordering(u128_leq()),
{
}

proof fn lemma_percentile_index_bounds(n: int, percent: int)
    requires
        n > 0,
        percent >= 0,
    ensures
        0 <= percentile_index(n, percent) < n,
{
    let p = if percent > 100 { 100 } else { percent };
    assert((n - 1) * p <= (n - 1) * 100) by (nonlinear_arith)
        requires
            n >= 1,
            0 <= p <= 100,
    ;
    assert(0 <= (n - 1) * p) by (nonlinear_arith)
        requires
            n >= 1,
            0 <= p,
    ;
}

/// A copy of `values` in ascending order.
fn sorted_copy(values: &[u128]) -> (out: Vec<u128>)
    ensures
        out@ == ascending(values@),
{
    let mut out: Vec<u128> = Vec::new();
    let mut i: usize = 0;
    while i < values.len()
        invariant
            i <= values@.len(),
            sorted_by(out@, u128_leq()),
            out@.to_multiset() == values@.take(i as int).to_multiset(),
        decreases values@.len() - i,
    {
        let x = values[i];
        let mut pos: usize = 0;
        while pos < out.len() && out[pos] <= x
            invariant
                pos <= out@.len(),
                forall|k: int| 0 <= k < pos ==> out@[k] <= x,
            decreases out@.len() - pos,
        {
            pos = pos + 1;
        }
        let ghost before = out@;
        out.insert(pos, x);
        proof {
            let a = before.take(pos as int);
            let b = before.skip(pos as int);
            assert(before =~= a + b);
            assert(out@ =~= a.push(x) + b);
            assert forall|p: int, q: int| 0 <= p < q < out@.len() implies #[trigger] u128_leq()(
                out@[p],
                out@[q],
            ) by {
                if q < pos {
                    assert(u128_leq()(before[p], before[q]));
                } else if q == pos {
                    assert(before[p] <= x);
                } else if p < pos {
                    assert(u128_leq()(before[p], before[q - 1]));
                } else if p == pos {
                    assert(before[pos as int] > x);
                    if pos < q - 1 {
                        assert(u128_leq()(before[pos as int], before[q - 1]));
                    }
                } else {
                    assert(u128_leq()(before[p - 1], before[q - 1]));
                }
            }
            vstd::seq_lib::lemma_multiset_commutative(a, b);
            vstd::seq_lib::lemma_multiset_commutative(a.push(x), b);
            assert(out@.to_multiset() =~= before.to_multiset().insert(x));
            assert(values@.take(i + 1) =~= values@.take(i as int).push(x));
        }
        i = i + 1;
    }
    proof {
        assert(values@.take(values@.len() as int) =~= values@);
        lemma_leq_total();
        values@.lemma_sort_by_ensures(u128_leq());
        vstd::seq_lib::lemma_sorted_unique(out@, ascending(values@), u128_leq());
    }
    out
}

/// The `percent`-th percentile of `values`: the value at position
/// `percentile_index` once they are sorted (0 when there are none).
pub fn percentile_u128(values: &[u128], percent: u8) -> (r: u128)
    ensures
        r == percentile(values@, percent as int),
{
    if values.len() == 0 {
        return 0;
    }
    let sorted = sorted_copy(values);
    let p: usize = if percent > 100 { 100 } else { percent as usize };
    proof {
        lemma_percentile_index_bounds(values@.len() as int, percent as int);
        values@.lemma_sort_by_ensures(u128_leq());
        lemma_leq_total();
        assert(sorted@.len() == values@.len()) by {
            assert(sorted@.to_multiset().len() == values@.to_multiset().len());
        }
    }
    let last = (values.len() - 1) as u128;
    let pw = p as u128;
    assert(last * pw <= last * 100) by (nonlinear_arith)
        requires
            pw <= 100,
    ;
    assert(last * 100 <= 100 * 0xffff_ffff_ffff_ffffu128) by (nonlinear_arith)
        requires
            last <= 0xffff_ffff_ffff_ffffu128,
    ;
    let idx = ((last * pw + 50) / 100) as usize;
    sorted[idx]
}

/// How many of the latest samples a summary covers.
pub const QUERY_PROFILE_STATUS_SAMPLE_WINDOW: usize = 400;

/// Queries at most this long count as short.
pub const SHORT_QUERY_APP_BIAS_MAX_LEN: usize = 2;

/// Timing figures over recent queries.
#[derive(Debug, Clone, Copy, PartialEq, Eq, Structural)]
pub struct QueryProfileSummary {
    pub samples: usize,
    pub p50_total_ms: u128,
    pub p95_total_ms: u128,
    pub p99_total_ms: u128,
    pub max_total_ms: u128,
    pub avg_total_ms: u128,
    pub p95_indexed_ms: u128,
    pub short_query_samples: usize,
    pub short_query_p95_total_ms: u128,
    pub short_query_app_bias_rate_pct: u8,
}

pub open spec fn totals(s: Seq<QueryProfileSample>) -> Seq<u128> {
    s.map_values(|x: QueryProfileSample| x.total_ms)
}

pub open spec fn indexed_times(s: Seq<QueryProfileSample>) -> Seq<u128> {
    s.map_values(|x: QueryProfileSample| x.indexed_ms)
}

/// The samples of short queries, in order.
pub open spec fn short_samples(s: Seq<QueryProfileSample>) -> Seq<QueryProfileSample>
    decreases s.len(),
{
    if s.len() == 0 {
        Seq::empty()
    } else {
        short_samples(s.drop_last()) + (if s.last().query_len <= SHORT_QUERY_APP_BIAS_MAX_LEN {
            seq![s.last()]
        } else {
            Seq::empty()
        })
    }
}

/// How many samples had the short-query app bias on.
pub open spec fn bias_count(s: Seq<QueryProfileSample>) -> nat
    decreases s.len(),
{
    if s.len() == 0 {
        0
    } else {
        bias_count(s.drop_last()) + (if s.last().short_app_bias { 1nat } else { 0nat })
    }
}

pub open spec fn sum_of(s: Seq<u128>) -> nat
    decreases s.len(),
{
    if s.len() == 0 {
        0
    } else {
        sum_of(s.drop_last()) + s.last() as nat
    }
}

pub open spec fn max_of(s: Seq<u128>) -> u128
    decreases s.len(),
{
    if s.len() == 0 {
        0
    } else if max_of(s.drop_last()) >= s.last() {
        max_of(s.drop_last())
    } else {
        s.last()
    }
}

/// The latest samples that a summary covers.
pub open spec fn summary_window(samples: Seq<QueryProfileSample>) -> Seq<QueryProfileSample> {
    keep_last(samples, QUERY_PROFILE_STATUS_SAMPLE_WINDOW as int)
}

/// The summary of the latest samples; `None` when there are none.
pub open spec fn summary_of(samples: Seq<QueryProfileSample>) -> Option<QueryProfileSummary> {
    let w = summary_window(samples);
    let short = short_samples(w);
    if samples.len() == 0 {
        None
    } else {
        Some(
            QueryProfileSummary {
                samples: w.len() as usize,
                p50_total_ms: percentile(totals(w), 50),
                p95_total_ms: percentile(totals(w), 95),
                p99_total_ms: percentile(totals(w), 99),
                max_total_ms: max_of(totals(w)),
                avg_total_ms: (sum_of(totals(w)) / w.len()) as u128,
                p95_indexed_ms: percentile(indexed_times(w), 95),
                short_query_samples: short.len() as usize,
                short_query_p95_total_ms: percentile(totals(short), 95),
                short_query_app_bias_rate_pct: if short.len() == 0 {
                    0
                } else {
                    (bias_count(short) * 100 / short.len()) as u8
                },
            },
        )
    }
}

proof fn lemma_bias_count_bounded(s: Seq<QueryProfileSample>)
    ensures
        bias_count(s) <= s.len(),
    decreases s.len(),
{
    if s.len() > 0 {
        lemma_bias_count_bounded(s.drop_last());
    }
}

/// Summarizes the latest 400 samples: percentiles, maximum and mean of the
/// total time, the 95th percentile of the index time, and how short queries
/// fared. The total times summed must fit in a `u128`.
pub fn summarize_query_profile_samples(samples: &[QueryProfileSample]) -> (r: Option<QueryProfileSummary>)
    requires
        sum_of(totals(summary_window(samples@))) <= u128::MAX,
    ensures
        r == summary_of(samples@),
{
    if samples.len() == 0 {
        return None;
    }
    let start = if samples.len() > QUERY_PROFILE_STATUS_SAMPLE_WINDOW {
        samples.len() - QUERY_PROFILE_STATUS_SAMPLE_WINDOW
    } else {
        0
    };
    let ghost w = summary_window(samples@);
    proof {
        assert(w =~= samples@.skip(start as int));
    }
    let mut total_ms: Vec<u128> = Vec::new();
    let mut indexed_ms: Vec<u128> = Vec::new();
    let mut short_total_ms: Vec<u128> = Vec::new();
    let mut short_count: usize = 0;
    let mut bias: usize = 0;
    let mut max_total: u128 = 0;
    let mut sum: u128 = 0;
    let mut i: usize = start;
    while i < samples.len()
        invariant
            start <= i <= samples@.len(),
            w == samples@.skip(start as int),
            sum_of(totals(w)) <= u128::MAX,
            total_ms@ == totals(w.take(i - start)),
            indexed_ms@ == indexed_times(w.take(i - start)),
            short_total_ms@ == totals(short_samples(w.take(i - start))),
            short_count == short_samples(w.take(i - start)).len(),
            bias == bias_count(short_samples(w.take(i - start))),
            max_total == max_of(totals(w.take(i - start))),
            sum == sum_of(totals(w.take(i - start))),
            short_count <= i - start,
        decreases samples@.len() - i,
    {
        let x = samples[i];
        let ghost k = i - start;
        let ghost pre = w.take(k);
        let ghost next = w.take(k + 1);
        proof {
            assert(next.drop_last() =~= pre);
            assert(next.last() == x);
            assert(totals(next).drop_last() =~= totals(pre));
            assert(indexed_times(next).drop_last() =~= indexed_times(pre));
            assert(totals(next).last() == x.total_ms);
            lemma_sum_prefix(totals(w), k + 1);
            assert(totals(w).take(k + 1) =~= totals(next));
            lemma_bias_count_bounded(short_samples(pre));
        }
        total_ms.push(x.total_ms);
        indexed_ms.push(x.indexed_ms);
        sum = sum + x.total_ms;
        if x.total_ms > max_total {
            max_total = x.total_ms;
        }
        if x.query_len <= SHORT_QUERY_APP_BIAS_MAX_LEN {
            short_total_ms.push(x.total_ms);
            short_count = short_count + 1;
            if x.short_app_bias {
                bias = bias + 1;
            }
            proof {
                assert(short_samples(next) =~= short_samples(pre).push(x));
                assert(short_samples(pre).push(x).drop_last() =~= short_samples(pre));
                assert(totals(short_samples(next)) =~= totals(short_samples(pre)).push(x.total_ms));
            }
        } else {
            proof {
                assert(short_samples(next) =~= short_samples(pre));
            }
        }
        proof {
            assert(total_ms@ =~= totals(next));
            assert(indexed_ms@ =~= indexed_times(next));
        }
        i = i + 1;
    }
    proof {
        assert(w.take(w.len() as int) =~= w);
        lemma_bias_count_bounded(short_samples(w));
    }
    let n = (samples.len() - start) as u128;
    let rate: u8 = if short_count == 0 {
        0
    } else {
        assert(bias * 100 <= short_count * 100) by (nonlinear_arith)
            requires
                bias <= short_count,
        ;
        assert(short_count * 100 <= 100 * 0xffff_ffff_ffff_ffffu128) by (nonlinear_arith)
            requires
                short_count <= 0xffff_ffff_ffff_ffffu128,
        ;
        let scaled = (bias as u128) * 100;
        assert(scaled / (short_count as u128) <= 100) by (nonlinear_arith)
            requires
                scaled <= short_count * 100,
                short_count > 0,
        ;
        (scaled / (short_count as u128)) as u8
    };
    Some(
        QueryProfileSummary {
            samples: samples.len() - start,
            p50_total_ms: percentile_u128(total_ms.as_slice(), 50),
            p95_total_ms: percentile_u128(total_ms.as_slice(), 95),
            p99_total_ms: percentile_u128(total_ms.as_slice(), 99),
            max_total_ms: max_total,
            avg_total_ms: sum / n,
            p95_indexed_ms: percentile_u128(indexed_ms.as_slice(), 95),
            short_query_samples: short_count,
            short_query_p95_total_ms: percentile_u128(short_total_ms.as_slice(), 95),
            short_query_app_bias_rate_pct: rate,
        },
    )
}

/// Whether the total times of the samples a summary covers add up within a
/// `u128`, as `summarize_query_profile_samples` needs.
pub fn summary_total_fits(samples: &[QueryProfileSample]) -> (b: bool)
    ensures
        b == (sum_of(totals(summary_window(samples@))) <= u128::MAX),
{
    let start = if samples.len() > QUERY_PROFILE_STATUS_SAMPLE_WINDOW {
        samples.len() - QUERY_PROFILE_STATUS_SAMPLE_WINDOW
    } else {
        0
    };
    let ghost w = summary_window(samples@);
    proof {
        assert(w =~= samples@.skip(start as int));
    }
    let mut sum: u128 = 0;
    let mut i: usize = start;
    while i < samples.len()
        invariant
            start <= i <= samples@.len(),
            w == samples@.skip(start as int),
            w == summary_window(samples@),
            sum == sum_of(totals(w.take(i - start))),
        decreases samples@.len() - i,
    {
        let ghost k = i - start;
        proof {
            assert(totals(w.take(k + 1)).drop_last() =~= totals(w.take(k)));
            assert(totals(w.take(k + 1)).last() == samples@[i as int].total_ms);
        }
        match sum.checked_add(samples[i].total_ms) {
            Some(next) => {
                sum = next;
            },
            None => {
                proof {
                    let t = totals(w.take(k + 1));
                    assert(sum_of(t) == sum_of(t.drop_last()) + t.last() as nat);
                    assert(sum_of(t) > u128::MAX);
                    lemma_sum_prefix(totals(w), k + 1);
                    assert(totals(w).take(k + 1) =~= t);
                }
                return false;
            },
        }
        i = i + 1;
    }
    proof {
        assert(w.take(w.len() as int) =~= w);
    }
    true
}

/// The sums of prefixes never exceed the whole sum.
proof fn lemma_sum_prefix(s: Seq<u128>, k: int)
    requires
        0 <= k <= s.len(),
    ensures
        sum_of(s.take(k)) <= sum_of(s),
    decreases s.len() - k,
{
    if k < s.len() {
        lemma_sum_prefix(s, k + 1);
        assert(s.take(k + 1).drop_last() =~= s.take(k));
    } else {
        assert(s.take(k) =~= s);
    }
}

/// The summary of the query timings logged since the runtime last started.
pub fn summarize_query_profiles(content: &str) -> (r: Option<QueryProfileSummary>)
    requires
        sum_of(totals(summary_window(crate::runtime::recent_samples(content@)))) <= u128::MAX,
    ensures
        r == summary_of(crate::runtime::recent_samples(content@)),
{
    let samples = crate::runtime::parse_recent_query_profile_samples(content);
    summarize_query_profile_samples(samples.as_slice())
}

// ---------------------------------------------------------------------------
// The status report
// ---------------------------------------------------------------------------

/// The last position at or before `i` where `needle` occurs in `hay`, or -1.
pub open spec fn last_match(hay: Seq<char>, needle: Seq<char>, i: int) -> int
    decreases i + 1,
{
    if i < 0 {
        -1
    } else if text::occurs_at(hay, needle, i) {
        i
    } else {
        last_match(hay, needle, i - 1)
    }
}

/// Where the log of the latest run starts: the line of the last startup
/// record (from that record itself when no line break comes before it),
/// or the whole log without one.
pub open spec fn recent_log_start(content: Seq<char>) -> int {
    let pos = last_match(content, "[swiftfind-core] startup mode="@, content.len() as int);
    if pos < 0 {
        0
    } else {
        let nl = last_match(content, seq!['\n'], pos - 1);
        if nl < 0 {
            pos
        } else {
            nl + 1
        }
    }
}

fn last_match_exec(hay: &Vec<char>, needle: &Vec<char>, upto: usize) -> (r: Option<usize>)
    requires
        upto <= hay.len(),
    ensures
        match r {
            Some(i) => i as int == last_match(hay@, needle@, upto as int) && i <= upto,
            None => last_match(hay@, needle@, upto as int) == -1,
        },
{
    let mut i: usize = upto;
    loop
        invariant
            i <= upto,
            upto <= hay.len(),
            last_match(hay@, needle@, upto as int) == last_match(hay@, needle@, i as int),
        decreases i,
    {
        if text::matches_at(hay, i, needle) {
            return Some(i);
        }
        if i == 0 {
            proof {
                assert(last_match(hay@, needle@, -1) == -1);
            }
            return None;
        }
        i = i - 1;
    }
}

/// The log of the latest run (see `recent_log_start`).
pub fn recent_runtime_log_slice(content: &str) -> (out: String)
    ensures
        out@ == content@.skip(recent_log_start(content@)),
{
    let v = text::chars_of(content);
    let marker = text::chars_of("[swiftfind-core] startup mode=");
    let start: usize = match last_match_exec(&v, &marker, v.len()) {
        None => 0,
        Some(pos) => {
            if pos == 0 {
                proof {
                    assert(last_match(v@, seq!['\n'], -1) == -1);
                }
                pos
            } else {
                let nl: Vec<char> = vec!['\n'];
                proof {
                    assert(nl@ =~= seq!['\n']);
                }
                match last_match_exec(&v, &nl, pos - 1) {
                    Some(j) => j + 1,
                    None => pos,
                }
            }
        },
    };
    proof {
        lemma_last_match_bounds(v@, marker@, v@.len() as int);
    }
    let tail = text::slice_vec(&v, start, v.len());
    text::string_of(&tail)
}

proof fn lemma_last_match_bounds(hay: Seq<char>, needle: Seq<char>, i: int)
    requires
        i >= -1,
    ensures
        -1 <= last_match(hay, needle, i),
        last_match(hay, needle, i) <= i,
        last_match(hay, needle, i) >= 0 ==> text::occurs_at(hay, needle, last_match(hay, needle, i)),
    decreases i + 1,
{
    if i >= 0 && !text::occurs_at(hay, needle, i) {
        lemma_last_match_bounds(hay, needle, i - 1);
    }
}

/// Query latency over the log: since the runtime last started and overall,
/// with the number of queries skipped for holding only symbols.
#[derive(Debug, Clone, Copy, PartialEq, Eq)]
pub struct QueryProfileStatusReport {
    pub recent: Option<QueryProfileSummary>,
    pub historical: Option<QueryProfileSummary>,
    pub recent_skipped_symbol_queries: usize,
    pub historical_skipped_symbol_queries: usize,
}

/// The status report of a log: `None` when it holds no query timings.
pub open spec fn status_report_of(content: Seq<char>, r: Option<QueryProfileStatusReport>) -> bool {
    let recent = summary_of(crate::runtime::recent_samples(content));
    let historical = summary_of(crate::runtime::samples_of_lines(crate::runtime::text_lines(content)));
    let token = "query_guard skip=non_searchable_symbol_only"@;
    if recent is None && historical is None {
        r is None
    } else {
        r matches Some(rep) && rep.recent == recent && rep.historical == historical
            && rep.recent_skipped_symbol_queries == crate::runtime::count_lines_with(
            crate::runtime::text_lines(content.skip(recent_log_start(content))),
            token,
        ) && rep.historical_skipped_symbol_queries == crate::runtime::count_lines_with(
            crate::runtime::text_lines(content),
            token,
        )
    }
}

/// Summarizes the query timings of a log for the status command. The total
/// times summed for either summary must fit in a `u128`.
pub fn summarize_query_profile_status_report(content: &str) -> (r: Option<QueryProfileStatusReport>)
    requires
        sum_of(totals(summary_window(crate::runtime::recent_samples(content@)))) <= u128::MAX,
        sum_of(totals(summary_window(crate::runtime::samples_of_lines(crate::runtime::text_lines(content@)))))
            <= u128::MAX,
    ensures
        status_report_of(content@, r),
{
    let recent_samples = crate::runtime::parse_recent_query_profile_samples(content);
    let historical_samples = crate::runtime::parse_query_profile_samples(content);
    let recent = summarize_query_profile_samples(recent_samples.as_slice());
    let historical = summarize_query_profile_samples(historical_samples.as_slice());
    if recent.is_none() && historical.is_none() {
        return None;
    }
    let recent_lines = recent_runtime_log_slice(content);
    let recent_skipped = crate::runtime::count_skipped_symbol_query_guards(recent_lines.as_str());
    let historical_skipped = crate::runtime::count_skipped_symbol_query_guards(content);
    Some(
        QueryProfileStatusReport {
            recent,
            historical,
            recent_skipped_symbol_queries: recent_skipped,
            historical_skipped_symbol_queries: historical_skipped,
        },
    )
}

/// The status report of a log, or `None` also when a summary's total times
/// do not fit in a `u128`; says which with the second value.
pub fn query_profile_status_report(content: &str) -> (r: (Option<QueryProfileStatusReport>, bool))
    ensures
        r.1 == (sum_of(totals(summary_window(crate::runtime::recent_samples(content@)))) <= u128::MAX && sum_of(
            totals(summary_window(crate::runtime::samples_of_lines(crate::runtime::text_lines(content@)))),
        ) <= u128::MAX),
        r.1 ==> status_report_of(content@, r.0),
        !r.1 ==> r.0 is None,
{
    let recent_samples = crate::runtime::parse_recent_query_profile_samples(content);
    let historical_samples = crate::runtime::parse_query_profile_samples(content);
    if !summary_total_fits(recent_samples.as_slice()) || !summary_total_fits(historical_samples.as_slice()) {
        return (None, false);
    }
    (summarize_query_profile_status_report(content), true)
}

} // verus!
