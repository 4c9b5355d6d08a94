//! The decisions of the overlay runtime: command-line options, how many
//! candidates a query fetches, selection movement, overlay result clean-up and
//! the reading of the runtime's own log.
use vstd::prelude::*;

use crate::config::{texts, Config, SearchMode};
use crate::query_dsl::{join, opt_string, strings, string_groups, ParsedQuery};
use crate::model::{normalize, SearchItem};
use crate::search::{kind_is, views, SearchFilter};
use crate::settings::{
    all_digits, digits_value, is_ascii_digit, lemma_prefix_value_grows, lemma_split_on_nonempty, split_chars,
    split_on,
};
use crate::text;
use crate::uninstall_registry::{ws_words, ws_words_of};

verus! {

// ---------------------------------------------------------------------------
// Command line
// ---------------------------------------------------------------------------

/// What the process was asked to do.
#[derive(Debug, Clone, Copy, PartialEq, Eq, Structural)]
pub enum RuntimeCommand {
    Run,
    Status,
    Quit,
    Restart,
    EnsureConfig,
    SyncStartup,
    SetLaunchAtStartup(bool),
    DiagnosticsBundle,
}

/// The parsed command line.
#[derive(Debug, Clone, Copy, PartialEq, Eq, Structural)]
pub struct RuntimeOptions {
    pub command: RuntimeCommand,
    pub background: bool,
}

impl Default for RuntimeOptions {
    fn default() -> (o: Self)
        ensures
            o == default_options(),
    {
        RuntimeOptions { command: RuntimeCommand::Run, background: false }
    }
}

/// Run in the foreground.
pub open spec fn default_options() -> RuntimeOptions {
    RuntimeOptions { command: RuntimeCommand::Run, background: false }
}

/// The usage text shown for `--help`.
pub open spec fn usage_text() -> Seq<char> {
    "usage: swiftfind-core [--background|--foreground] [--status|--quit|--restart|--ensure-config|--sync-startup|--set-launch-at-startup=true|false|--diagnostics-bundle]"@
}

/// The effect of one argument on the options, or the error it raises.
pub open spec fn cli_step(o: RuntimeOptions, arg: Seq<char>) -> Result<RuntimeOptions, Seq<char>> {
    let prefix = "--set-launch-at-startup="@;
    if text::starts_with(arg, prefix) {
        let value = arg.skip(prefix.len() as int);
        let n = text::ascii_lower(text::trim(value));
        if n == "true"@ || n == "1"@ || n == "yes"@ || n == "on"@ {
            Ok(RuntimeOptions { command: RuntimeCommand::SetLaunchAtStartup(true), ..o })
        } else if n == "false"@ || n == "0"@ || n == "no"@ || n == "off"@ {
            Ok(RuntimeOptions { command: RuntimeCommand::SetLaunchAtStartup(false), ..o })
        } else {
            Err("invalid value for --set-launch-at-startup: "@ + value + " (expected true/false)"@)
        }
    } else if arg == "--background"@ {
        Ok(RuntimeOptions { background: true, ..o })
    } else if arg == "--foreground"@ {
        Ok(RuntimeOptions { background: false, ..o })
    } else if arg == "--status"@ {
        Ok(RuntimeOptions { command: RuntimeCommand::Status, ..o })
    } else if arg == "--quit"@ {
        Ok(RuntimeOptions { command: RuntimeCommand::Quit, ..o })
    } else if arg == "--restart"@ {
        Ok(RuntimeOptions { command: RuntimeCommand::Restart, ..o })
    } else if arg == "--ensure-config"@ {
        Ok(RuntimeOptions { command: RuntimeCommand::EnsureConfig, ..o })
    } else if arg == "--sync-startup"@ {
        Ok(RuntimeOptions { command: RuntimeCommand::SyncStartup, ..o })
    } else if arg == "--diagnostics-bundle"@ {
        Ok(RuntimeOptions { command: RuntimeCommand::DiagnosticsBundle, ..o })
    } else if arg == "--help"@ || arg == "-h"@ {
        Err(usage_text())
    } else {
        Err("unknown argument: "@ + arg)
    }
}

/// The options after the arguments `args`, or the first argument's error.
pub open spec fn cli_fold(args: Seq<Seq<char>>) -> Result<RuntimeOptions, Seq<char>>
    decreases args.len(),
{
    if args.len() == 0 {
        Ok(default_options())
    } else {
        match cli_fold(args.drop_last()) {
            Ok(o) => cli_step(o, args.last()),
            Err(e) => Err(e),
        }
    }
}

/// What `parse_cli_args` answers: background mode only goes with running.
pub open spec fn cli_result(args: Seq<Seq<char>>) -> Result<RuntimeOptions, Seq<char>> {
    match cli_fold(args) {
        Ok(o) => if o.command != RuntimeCommand::Run && o.background {
            Err("background mode is only valid with normal run mode"@)
        } else {
            Ok(o)
        },
        Err(e) => Err(e),
    }
}

fn cli_arg(o: RuntimeOptions, arg: &str) -> (r: Result<RuntimeOptions, String>)
    ensures
        match r {
            Ok(n) => cli_step(o, arg@) == Ok::<RuntimeOptions, Seq<char>>(n),
            Err(e) => cli_step(o, arg@) == Err::<RuntimeOptions, Seq<char>>(e@),
        },
{
    let a = text::chars_of(arg);
    let prefix = text::chars_of("--set-launch-at-startup=");
    if text::vec_starts_with(&a, &prefix) {
        let value = text::slice_vec(&a, prefix.len(), a.len());
        proof {
            assert(value@ =~= arg@.skip(prefix@.len() as int));
        }
        let t = text::trim_vec(&value);
        let n = text::lower_vec(&t);
        if text::vec_eq_str(&n, "true") || text::vec_eq_str(&n, "1") || text::vec_eq_str(&n, "yes")
            || text::vec_eq_str(&n, "on") {
            return Ok(RuntimeOptions { command: RuntimeCommand::SetLaunchAtStartup(true), ..o });
        }
        if text::vec_eq_str(&n, "false") || text::vec_eq_str(&n, "0") || text::vec_eq_str(&n, "no")
            || text::vec_eq_str(&n, "off") {
            return Ok(RuntimeOptions { command: RuntimeCommand::SetLaunchAtStartup(false), ..o });
        }
        let mut msg = text::owned("invalid value for --set-launch-at-startup: ");
        let v = text::string_of(&value);
        text::push_str(&mut msg, v.as_str());
        text::push_str(&mut msg, " (expected true/false)");
        return Err(msg);
    }
    if text::str_eq(arg, "--background") {
        Ok(RuntimeOptions { background: true, ..o })
    } else if text::str_eq(arg, "--foreground") {
        Ok(RuntimeOptions { background: false, ..o })
    } else if text::str_eq(arg, "--status") {
        Ok(RuntimeOptions { command: RuntimeCommand::Status, ..o })
    } else if text::str_eq(arg, "--quit") {
        Ok(RuntimeOptions { command: RuntimeCommand::Quit, ..o })
    } else if text::str_eq(arg, "--restart") {
        Ok(RuntimeOptions { command: RuntimeCommand::Restart, ..o })
    } else if text::str_eq(arg, "--ensure-config") {
        Ok(RuntimeOptions { command: RuntimeCommand::EnsureConfig, ..o })
    } else if text::str_eq(arg, "--sync-startup") {
        Ok(RuntimeOptions { command: RuntimeCommand::SyncStartup, ..o })
    } else if text::str_eq(arg, "--diagnostics-bundle") {
        Ok(RuntimeOptions { command: RuntimeCommand::DiagnosticsBundle, ..o })
    } else if text::str_eq(arg, "--help") || text::str_eq(arg, "-h") {
        Err(text::owned(
            "usage: swiftfind-core [--background|--foreground] [--status|--quit|--restart|--ensure-config|--sync-startup|--set-launch-at-startup=true|false|--diagnostics-bundle]",
        ))
    } else {
        Err(text::concat("unknown argument: ", arg))
    }
}

/// Reads the command line: one command at most (the last wins), and the
/// background flag only with the plain run command.
pub fn parse_cli_args(args: &[String]) -> (r: Result<RuntimeOptions, String>)
    ensures
        match r {
            Ok(o) => cli_result(texts(args@)) == Ok::<RuntimeOptions, Seq<char>>(o),
            Err(e) => cli_result(texts(args@)) == Err::<RuntimeOptions, Seq<char>>(e@),
        },
{
    let mut options = RuntimeOptions { command: RuntimeCommand::Run, background: false };
    let mut i: usize = 0;
    while i < args.len()
        invariant
            i <= args@.len(),
            cli_fold(texts(args@).take(i as int)) == Ok::<RuntimeOptions, Seq<char>>(options),
        decreases args@.len() - i,
    {
        proof {
            let p = texts(args@).take((i + 1) as int);
            assert(p.drop_last() =~= texts(args@).take(i as int));
            assert(p.last() == args@[i as int]@);
        }
        match cli_arg(options, args[i].as_str()) {
            Ok(o) => {
                options = o;
            },
            Err(e) => {
                proof {
                    lemma_cli_error_sticks(texts(args@), (i + 1) as int);
                }
                return Err(e);
            },
        }
        i = i + 1;
    }
    proof {
        assert(texts(args@).take(args@.len() as int) =~= texts(args@));
    }
    if options.command != RuntimeCommand::Run && options.background {
        return Err(text::owned("background mode is only valid with normal run mode"));
    }
    Ok(options)
}

proof fn lemma_cli_error_sticks(args: Seq<Seq<char>>, k: int)
    requires
        0 <= k <= args.len(),
        cli_fold(args.take(k)) is Err,
    ensures
        cli_fold(args) == cli_fold(args.take(k)),
    decreases args.len() - k,
{
    if k < args.len() {
        assert(args.take(k + 1).drop_last() =~= args.take(k));
        lemma_cli_error_sticks(args, k + 1);
    } else {
        assert(args.take(k) =~= args);
    }
}

// ---------------------------------------------------------------------------
// Selection
// ---------------------------------------------------------------------------

/// The selected row after moving by `direction` among `len` rows: one step
/// up or down, clamped to the list; direction 0 only clamps.
pub open spec fn next_selection(current: int, len: int, direction: int) -> int {
    if len == 0 {
        0
    } else if direction < 0 {
        if current > 0 { current - 1 } else { 0 }
    } else if direction > 0 {
        if current + 1 < len - 1 { current + 1 } else { len - 1 }
    } else {
        if current < len - 1 { current } else { len - 1 }
    }
}

pub fn next_selection_index(current: usize, len: usize, direction: i32) -> (next: usize)
    requires
        direction > 0 ==> current < usize::MAX,
    ensures
        next == next_selection(current as int, len as int, direction as int),
{
    if len == 0 {
        return 0;
    }
    let max = len - 1;
    if direction < 0 {
        if current > 0 { current - 1 } else { 0 }
    } else if direction > 0 {
        let n = current + 1;
        if n < max { n } else { max }
    } else {
        if current < max { current } else { max }
    }
}

/// A selection inside the list stays inside it, whatever the move.
pub proof fn law_selection_stays_in_range(current: int, len: int, direction: int)
    requires
        0 <= current < len,
    ensures
        0 <= next_selection(current, len, direction) < len,
{
}

// ---------------------------------------------------------------------------
// Candidate limits
// ---------------------------------------------------------------------------

/// `a * k`, saturating at `usize::MAX`.
pub open spec fn sat_mul(a: int, k: int) -> int {
    if a * k > usize::MAX { usize::MAX as int } else { a * k }
}

pub open spec fn max_of(a: int, b: int) -> int {
    if a >= b { a } else { b }
}

pub open spec fn min_of(a: int, b: int) -> int {
    if a <= b { a } else { b }
}

/// `sat_mul(limit, k).max(lo).min(hi).max(limit)`.
pub open spec fn scaled_limit(limit: int, k: int, lo: int, hi: int) -> int {
    max_of(min_of(max_of(sat_mul(limit, k), lo), hi), limit)
}

fn saturating_times(a: usize, k: usize) -> (r: usize)
    requires
        k > 0,
    ensures
        r == sat_mul(a as int, k as int),
{
    if a > usize::MAX / k {
        proof {
            assert(a * k > usize::MAX) by (nonlinear_arith)
                requires
                    a > usize::MAX / k,
                    k > 0,
            ;
        }
        usize::MAX
    } else {
        proof {
            assert(a * k <= usize::MAX) by (nonlinear_arith)
                requires
                    a <= usize::MAX / k,
                    k > 0,
            ;
        }
        a * k
    }
}

fn scaled(limit: usize, k: usize, lo: usize, hi: usize) -> (r: usize)
    requires
        k > 0,
    ensures
        r == scaled_limit(limit as int, k as int, lo as int, hi as int),
{
    let m = saturating_times(limit, k);
    let a = if m >= lo { m } else { lo };
    let b = if a <= hi { a } else { hi };
    if b >= limit { b } else { limit }
}

/// How many candidates each source fetches for a query whose normalized text
/// is `query_bytes` bytes long. Command queries and short queries fetch fewer.
pub open spec fn candidate_limit(result_limit: int, mode: SearchMode, query_bytes: int, command_mode: bool) -> int {
    if result_limit == 0 {
        0
    } else if command_mode || mode == SearchMode::Actions {
        scaled_limit(result_limit, 4, 48, 160)
    } else if query_bytes == 0 {
        scaled_limit(result_limit, 2, 24, 64)
    } else if query_bytes == 1 || query_bytes == 2 {
        if mode == SearchMode::Files {
            scaled_limit(result_limit, 5, 70, 200)
        } else if mode == SearchMode::All {
            if query_bytes == 1 {
                scaled_limit(result_limit, 3, 45, 96)
            } else {
                scaled_limit(result_limit, 4, 56, 140)
            }
        } else {
            scaled_limit(result_limit, 4, 56, 180)
        }
    } else {
        max_of(min_of(max_of(sat_mul(result_limit, 6), 60), 280), result_limit)
    }
}

pub fn candidate_limit_for_query(
    result_limit: usize,
    filter: &SearchFilter,
    normalized_query: &str,
    command_mode: bool,
) -> (n: usize)
    ensures
        n == candidate_limit(
            result_limit as int,
            filter.mode,
            text::byte_len(normalized_query@),
            command_mode,
        ),
{
    if result_limit == 0 {
        return 0;
    }
    if command_mode || filter.mode == SearchMode::Actions {
        return scaled(result_limit, 4, 48, 160);
    }
    let q = text::chars_of(normalized_query);
    let bytes = text::byte_len_of(&q);
    if bytes == 0 {
        scaled(result_limit, 2, 24, 64)
    } else if bytes == 1 || bytes == 2 {
        match filter.mode {
            SearchMode::Files => scaled(result_limit, 5, 70, 200),
            SearchMode::All => if bytes == 1 {
                scaled(result_limit, 3, 45, 96)
            } else {
                scaled(result_limit, 4, 56, 140)
            },
            _ => scaled(result_limit, 4, 56, 180),
        }
    } else {
        scaled(result_limit, 6, 60, 280)
    }
}

pub const INDEXED_PREFIX_CACHE_MIN_SEED_LIMIT: usize = 120;

pub const INDEXED_PREFIX_CACHE_MAX_SEED_LIMIT: usize = 480;

pub open spec fn clamp_to(x: int, lo: int, hi: int) -> int {
    if x < lo { lo } else if x > hi { hi } else { x }
}

/// How many indexed items a query asks the index for, before ranking.
pub open spec fn seed_limit(candidate_limit: int, query_bytes: int) -> int {
    let multiplier = if query_bytes <= 1 { 4 } else { 2 };
    clamp_to(sat_mul(candidate_limit, multiplier), 120, 480)
}

pub fn indexed_seed_limit(candidate_limit: usize, normalized_query_len: usize) -> (n: usize)
    ensures
        n == seed_limit(candidate_limit as int, normalized_query_len as int),
{
    let multiplier: usize = if normalized_query_len <= 1 { 4 } else { 2 };
    let m = saturating_times(candidate_limit, multiplier);
    if m < INDEXED_PREFIX_CACHE_MIN_SEED_LIMIT {
        INDEXED_PREFIX_CACHE_MIN_SEED_LIMIT
    } else if m > INDEXED_PREFIX_CACHE_MAX_SEED_LIMIT {
        INDEXED_PREFIX_CACHE_MAX_SEED_LIMIT
    } else {
        m
    }
}

/// The seed limit tuned by recent index latency: with six or more samples,
/// a slow 95th percentile shrinks it and a fast one grows it for longer
/// queries; it never drops below the candidate limit (nor 60) or exceeds 480.
pub open spec fn adaptive_seed_limit(
    sample_count: int,
    p95: int,
    candidate_limit: int,
    query_bytes: int,
    base: int,
) -> int {
    if sample_count < 6 {
        base
    } else {
        let scaled = if p95 >= 160 {
            sat_mul(base, 60) / 100
        } else if p95 >= 120 {
            sat_mul(base, 72) / 100
        } else if p95 >= 95 {
            sat_mul(base, 84) / 100
        } else if p95 <= 50 && query_bytes >= 3 {
            sat_mul(base, 108) / 100
        } else {
            base
        };
        clamp_to(scaled, max_of(candidate_limit, 60), 480)
    }
}

/// `adaptive_seed_limit` over the latency samples the session holds.
pub fn adaptive_indexed_seed_limit(
    session: &crate::overlay_session::OverlaySearchSession,
    candidate_limit: usize,
    normalized_query_len: usize,
    base_seed_limit: usize,
) -> (n: usize)
    requires
        session.indexed_latency_ms@.len() >= 6 ==> candidate_limit <= INDEXED_PREFIX_CACHE_MAX_SEED_LIMIT,
    ensures
        n == adaptive_seed_limit(
            session.indexed_latency_ms@.len() as int,
            crate::query_profile::percentile(session.indexed_latency_ms@, 95) as int,
            candidate_limit as int,
            normalized_query_len as int,
            base_seed_limit as int,
        ),
{
    let sample_count = session.indexed_latency_ms.len();
    if sample_count < 6 {
        return base_seed_limit;
    }
    let p95 = crate::query_profile::percentile_u128(session.indexed_latency_ms.as_slice(), 95);
    let scaled = if p95 >= 160 {
        saturating_times(base_seed_limit, 60) / 100
    } else if p95 >= 120 {
        saturating_times(base_seed_limit, 72) / 100
    } else if p95 >= 95 {
        saturating_times(base_seed_limit, 84) / 100
    } else if p95 <= 50 && normalized_query_len >= 3 {
        saturating_times(base_seed_limit, 108) / 100
    } else {
        base_seed_limit
    };
    let minimum = if candidate_limit >= INDEXED_PREFIX_CACHE_MIN_SEED_LIMIT / 2 {
        candidate_limit
    } else {
        INDEXED_PREFIX_CACHE_MIN_SEED_LIMIT / 2
    };
    if scaled < minimum {
        minimum
    } else if scaled > INDEXED_PREFIX_CACHE_MAX_SEED_LIMIT {
        INDEXED_PREFIX_CACHE_MAX_SEED_LIMIT
    } else {
        scaled
    }
}


// ---------------------------------------------------------------------------
// Query shape
// ---------------------------------------------------------------------------

/// A query with nothing to search for and no filter: symbols only.
pub open spec fn non_searchable(pq: ParsedQuery, normalized_query: Seq<char>) -> bool {
    &&& normalized_query.len() == 0
    &&& !pq.command_mode
    &&& pq.mode_override is None
    &&& pq.kind_filter is None
    &&& pq.extension_filter is None
    &&& pq.include_groups@.len() == 0
    &&& pq.exclude_terms@.len() == 0
    &&& pq.modified_within is None
    &&& pq.created_within is None
}

pub fn should_skip_non_searchable_query(parsed_query: &ParsedQuery, normalized_query: &str) -> (b: bool)
    ensures
        b == non_searchable(*parsed_query, normalized_query@),
{
    if normalized_query.unicode_len() != 0 {
        return false;
    }
    if parsed_query.command_mode {
        return false;
    }
    if parsed_query.mode_override.is_some() {
        return false;
    }
    parsed_query.kind_filter.is_none() && parsed_query.extension_filter.is_none()
        && parsed_query.include_groups.len() == 0 && parsed_query.exclude_terms.len() == 0
        && parsed_query.modified_within.is_none() && parsed_query.created_within.is_none()
}

/// One- and two-byte plain queries in the All mode search apps only.
pub open spec fn short_query_app_mode(pq: ParsedQuery, filter: SearchFilter, normalized_query: Seq<char>) -> bool {
    &&& normalized_query.len() > 0
    &&& text::byte_len(normalized_query) <= 2
    &&& !pq.command_mode
    &&& filter.mode == SearchMode::All
    &&& pq.kind_filter is None
    &&& pq.extension_filter is None
    &&& pq.exclude_terms@.len() == 0
    &&& pq.modified_within is None
    &&& pq.created_within is None
}

pub fn should_use_short_query_app_mode(
    parsed_query: &ParsedQuery,
    filter: &SearchFilter,
    normalized_query: &str,
) -> (b: bool)
    ensures
        b == short_query_app_mode(*parsed_query, *filter, normalized_query@),
{
    let q = text::chars_of(normalized_query);
    if q.len() == 0 || text::byte_len_of(&q) > 2 {
        return false;
    }
    if parsed_query.command_mode {
        return false;
    }
    if filter.mode != SearchMode::All {
        return false;
    }
    parsed_query.kind_filter.is_none() && parsed_query.extension_filter.is_none()
        && parsed_query.exclude_terms.len() == 0 && parsed_query.modified_within.is_none()
        && parsed_query.created_within.is_none()
}

/// Plain free-text queries may reuse the indexed results of a shorter prefix.
pub open spec fn prefix_cache_eligible(pq: ParsedQuery, short_query_app_bias: bool) -> bool {
    let free = text::trim(pq.free_text@);
    &&& !short_query_app_bias
    &&& !pq.command_mode
    &&& pq.mode_override is None
    &&& pq.kind_filter is None
    &&& pq.extension_filter is None
    &&& pq.exclude_terms@.len() == 0
    &&& pq.modified_within is None
    &&& pq.created_within is None
    &&& free.len() > 0
    &&& text::trim(pq.raw@) == free
}

pub fn is_prefix_cache_eligible_query(parsed_query: &ParsedQuery, short_query_app_bias: bool) -> (b: bool)
    ensures
        b == prefix_cache_eligible(*parsed_query, short_query_app_bias),
{
    if short_query_app_bias || parsed_query.command_mode {
        return false;
    }
    if parsed_query.mode_override.is_some() || parsed_query.kind_filter.is_some()
        || parsed_query.extension_filter.is_some() || parsed_query.exclude_terms.len() != 0
        || parsed_query.modified_within.is_some() || parsed_query.created_within.is_some() {
        return false;
    }
    let free = text::trimmed_chars(parsed_query.free_text.as_str());
    if free.len() == 0 {
        return false;
    }
    let raw = text::trimmed_chars(parsed_query.raw.as_str());
    text::vec_eq(&raw, &free)
}

/// Indexed results kept from the previous keystroke's query.
#[derive(Debug, Clone)]
pub struct IndexedPrefixCache {
    pub normalized_query: String,
    pub indexed_filter: SearchFilter,
    pub seed_items: Vec<crate::model::SearchItem>,
}

/// Two filters agree on everything the index applies.
pub open spec fn same_indexed_filter(a: SearchFilter, b: SearchFilter) -> bool {
    &&& a.mode == b.mode
    &&& opt_string(a.kind_filter) == opt_string(b.kind_filter)
    &&& opt_string(a.extension_filter) == opt_string(b.extension_filter)
    &&& a.modified_within == b.modified_within
    &&& a.created_within == b.created_within
}

fn opt_str_eq(a: &Option<String>, b: &Option<String>) -> (r: bool)
    ensures
        r == (opt_string(*a) == opt_string(*b)),
{
    match (a, b) {
        (Some(x), Some(y)) => text::str_eq(x.as_str(), y.as_str()),
        (None, None) => true,
        _ => false,
    }
}

pub fn indexed_filter_matches_for_prefix_cache(a: &SearchFilter, b: &SearchFilter) -> (r: bool)
    ensures
        r == same_indexed_filter(*a, *b),
{
    a.mode == b.mode && opt_str_eq(&a.kind_filter, &b.kind_filter) && opt_str_eq(
        &a.extension_filter,
        &b.extension_filter,
    ) && a.modified_within == b.modified_within && a.created_within == b.created_within
}

/// The cached seed can serve a query that strictly extends the cached one
/// under the same index filter.
pub open spec fn prefix_cache_usable(
    cache: IndexedPrefixCache,
    eligible: bool,
    normalized_query: Seq<char>,
    filter: SearchFilter,
) -> bool {
    &&& eligible
    &&& cache.seed_items@.len() > 0
    &&& cache.normalized_query@.len() > 0
    &&& same_indexed_filter(cache.indexed_filter, filter)
    &&& text::byte_len(normalized_query) > text::byte_len(cache.normalized_query@)
    &&& text::starts_with(normalized_query, cache.normalized_query@)
}

pub fn can_use_indexed_prefix_cache(
    cache: &IndexedPrefixCache,
    prefix_cache_eligible: bool,
    normalized_query: &str,
    indexed_filter: &SearchFilter,
) -> (b: bool)
    ensures
        b == prefix_cache_usable(*cache, prefix_cache_eligible, normalized_query@, *indexed_filter),
{
    if !prefix_cache_eligible {
        return false;
    }
    if cache.seed_items.len() == 0 || cache.normalized_query.as_str().unicode_len() == 0 {
        return false;
    }
    if !indexed_filter_matches_for_prefix_cache(&cache.indexed_filter, indexed_filter) {
        return false;
    }
    let q = text::chars_of(normalized_query);
    let c = text::chars_of(cache.normalized_query.as_str());
    text::byte_len_of(&q) > text::byte_len_of(&c) && text::vec_starts_with(&q, &c)
}

/// The mode a query searches in: command queries search actions, else the
/// query's own mode, else the configured default.
pub open spec fn resolved_mode(cfg: Config, pq: ParsedQuery) -> SearchMode {
    if pq.command_mode {
        SearchMode::Actions
    } else {
        match pq.mode_override {
            Some(m) => m,
            None => cfg.search_mode_default,
        }
    }
}

pub fn resolved_mode_for_query(cfg: &Config, parsed_query: &ParsedQuery) -> (m: SearchMode)
    ensures
        m == resolved_mode(*cfg, *parsed_query),
{
    let mut mode = match parsed_query.mode_override {
        Some(m) => m,
        None => cfg.search_mode_default,
    };
    if parsed_query.command_mode {
        mode = SearchMode::Actions;
    }
    mode
}

fn clone_strings(v: &Vec<String>) -> (out: Vec<String>)
    ensures
        strings(out@) == strings(v@),
{
    let mut out: Vec<String> = Vec::new();
    let mut i: usize = 0;
    while i < v.len()
        invariant
            i <= v.len(),
            strings(out@) == strings(v@).take(i as int),
        decreases v.len() - i,
    {
        let s = text::owned(v[i].as_str());
        let ghost before = out@;
        out.push(s);
        proof {
            assert(strings(out@) =~= strings(before).push(s@));
            assert(strings(v@).take((i + 1) as int) =~= strings(v@).take(i as int).push(v@[i as int]@));
        }
        i = i + 1;
    }
    proof {
        assert(strings(v@).take(v.len() as int) =~= strings(v@));
    }
    out
}

fn clone_groups(v: &Vec<Vec<String>>) -> (out: Vec<Vec<String>>)
    ensures
        string_groups(out@) == string_groups(v@),
{
    let mut out: Vec<Vec<String>> = Vec::new();
    let mut i: usize = 0;
    while i < v.len()
        invariant
            i <= v.len(),
            string_groups(out@) == string_groups(v@).take(i as int),
        decreases v.len() - i,
    {
        let g = clone_strings(&v[i]);
        let ghost before = out@;
        out.push(g);
        proof {
            assert(string_groups(out@) =~= string_groups(before).push(strings(g@)));
            assert(string_groups(v@).take((i + 1) as int) =~= string_groups(v@).take(i as int).push(strings(v@[i as int]@)));
        }
        i = i + 1;
    }
    proof {
        assert(string_groups(v@).take(v.len() as int) =~= string_groups(v@));
    }
    out
}

fn clone_opt(o: &Option<String>) -> (out: Option<String>)
    ensures
        opt_string(out) == opt_string(*o),
{
    match o {
        Some(s) => Some(text::owned(s.as_str())),
        None => None,
    }
}

/// The search filter of a parsed query under the configuration.
pub open spec fn filter_for_query(f: SearchFilter, cfg: Config, pq: ParsedQuery) -> bool {
    &&& f.mode == resolved_mode(cfg, pq)
    &&& opt_string(f.kind_filter) == opt_string(pq.kind_filter)
    &&& opt_string(f.extension_filter) == opt_string(pq.extension_filter)
    &&& f.include_files == cfg.show_files
    &&& f.include_folders == cfg.show_folders
    &&& string_groups(f.include_groups@) == string_groups(pq.include_groups@)
    &&& strings(f.exclude_terms@) == strings(pq.exclude_terms@)
    &&& f.modified_within == pq.modified_within
    &&& f.created_within == pq.created_within
}

pub fn build_search_filter(cfg: &Config, parsed_query: &ParsedQuery) -> (f: SearchFilter)
    ensures
        filter_for_query(f, *cfg, *parsed_query),
{
    let mode = resolved_mode_for_query(cfg, parsed_query);
    SearchFilter {
        mode,
        kind_filter: clone_opt(&parsed_query.kind_filter),
        extension_filter: clone_opt(&parsed_query.extension_filter),
        include_files: cfg.show_files,
        include_folders: cfg.show_folders,
        include_groups: clone_groups(&parsed_query.include_groups),
        exclude_terms: clone_strings(&parsed_query.exclude_terms),
        modified_within: parsed_query.modified_within,
        created_within: parsed_query.created_within,
    }
}

// ---------------------------------------------------------------------------
// Uninstall flow
// ---------------------------------------------------------------------------

/// Uninstall queries list many installed applications.
pub const UNINSTALL_QUERY_RESULT_LIMIT: usize = 160;

pub open spec fn result_limit(base: int, pq: ParsedQuery) -> int {
    if base == 0 {
        0
    } else if pq.command_mode && crate::uninstall_registry::uninstall_search_term(pq.free_text@) is Some {
        max_of(base, 160)
    } else {
        base
    }
}

pub fn result_limit_for_query(base_limit: usize, parsed_query: &ParsedQuery) -> (n: usize)
    ensures
        n == result_limit(base_limit as int, *parsed_query),
{
    if base_limit == 0 {
        return 0;
    }
    if parsed_query.command_mode && crate::uninstall_registry::has_uninstall_intent(
        parsed_query.free_text.as_str(),
    ) {
        return if base_limit >= UNINSTALL_QUERY_RESULT_LIMIT {
            base_limit
        } else {
            UNINSTALL_QUERY_RESULT_LIMIT
        };
    }
    base_limit
}

/// Typing `>u` into an empty box (or one holding only `>`) expands to `>u `.
pub open spec fn quick_uninstall_expansion(query: Seq<char>, last_query: Seq<char>) -> Option<Seq<char>> {
    let raw = text::trim_start(query);
    let last = text::trim(last_query);
    if raw.len() > 0 && raw[0] == '>' && text::eq_ic(raw.drop_first(), "u"@) && (last.len() == 0
        || last == ">"@) {
        Some(">u "@)
    } else {
        None
    }
}

pub fn maybe_expand_uninstall_quick_shortcut(query: &str, last_query: &str) -> (r: Option<String>)
    ensures
        match r {
            Some(s) => quick_uninstall_expansion(query@, last_query@) == Some(s@),
            None => quick_uninstall_expansion(query@, last_query@) is None,
        },
{
    let v = text::chars_of(query);
    let start = text::skip_ws_forward(&v, 0, v.len());
    proof {
        assert(v@.subrange(0, v@.len() as int) =~= v@);
    }
    if start >= v.len() || v[start] != '>' {
        return None;
    }
    let remainder = text::slice_vec(&v, start + 1, v.len());
    proof {
        assert(remainder@ =~= v@.subrange(start as int, v@.len() as int).drop_first());
    }
    let u = text::chars_of("u");
    if text::vec_eq_ic(&remainder, &u) {
        let last = text::trimmed_chars(last_query);
        if last.len() == 0 || text::vec_eq_str(&last, ">") {
            return Some(text::owned(">u "));
        }
    }
    None
}

/// The application an `Uninstall <name>` action title names.
pub open spec fn uninstall_target_title(action_title: Seq<char>) -> Option<Seq<char>> {
    let t = text::trim(action_title);
    let target = text::trim(t.skip(10));
    if text::byte_len(t) <= 10 {
        None
    } else if !(t.len() >= 10 && text::eq_ic(t.take(10), "Uninstall "@)) {
        None
    } else if target.len() == 0 {
        None
    } else {
        Some(target)
    }
}

pub fn uninstall_target_title_from_action_title(action_title: &str) -> (r: Option<String>)
    ensures
        match r {
            Some(s) => uninstall_target_title(action_title@) == Some(s@),
            None => uninstall_target_title(action_title@) is None,
        },
{
    let t = text::trimmed_chars(action_title);
    if text::byte_len_of(&t) <= 10 {
        return None;
    }
    if t.len() < 10 {
        return None;
    }
    let head = text::slice_vec(&t, 0, 10);
    let prefix = text::chars_of("Uninstall ");
    proof {
        assert(head@ =~= t@.take(10));
    }
    if !text::vec_eq_ic(&head, &prefix) {
        return None;
    }
    let (a, b) = text::trim_bounds(&t, 10, t.len());
    proof {
        assert(t@.subrange(10, t@.len() as int) =~= t@.skip(10));
    }
    if a == b {
        return None;
    }
    Some(text::string_of_range(&t, a, b))
}

/// Whether an app's normalized title and a suppressed title key name the same
/// application: equal, or one a prefix of the other for keys of six bytes or
/// more, or containing the key for keys of ten bytes or more.
pub open spec fn uninstall_titles_match(app_key: Seq<char>, suppressed: Seq<char>) -> bool {
    &&& app_key.len() > 0
    &&& suppressed.len() > 0
    &&& {
        ||| app_key == suppressed
        ||| (text::byte_len(suppressed) >= 6 && (text::starts_with(app_key, suppressed)
            || text::starts_with(suppressed, app_key)))
        ||| (text::byte_len(suppressed) >= 10 && text::contains(app_key, suppressed))
    }
}

pub fn uninstall_title_matches(app_title_key: &Vec<char>, suppressed_key: &Vec<char>) -> (b: bool)
    ensures
        b == uninstall_titles_match(app_title_key@, suppressed_key@),
{
    if app_title_key.len() == 0 || suppressed_key.len() == 0 {
        return false;
    }
    if text::vec_eq(app_title_key, suppressed_key) {
        return true;
    }
    let sb = text::byte_len_of(suppressed_key);
    if sb >= 6 && (text::vec_starts_with(app_title_key, suppressed_key) || text::vec_starts_with(
        suppressed_key,
        app_title_key,
    )) {
        return true;
    }
    sb >= 10 && text::vec_contains(app_title_key, suppressed_key)
}

/// Some title among `titles` equals `t` up to ASCII case.
pub open spec fn has_title_ic(titles: Seq<Seq<char>>, t: Seq<char>) -> bool {
    exists|i: int| 0 <= i < titles.len() && text::eq_ic(#[trigger] titles[i], t)
}

/// After an uninstall is started, its application is hidden from results
/// until it is gone; each title is kept once, ignoring ASCII case.
pub fn track_uninstall_title_suppression(suppressed: &mut Vec<String>, action_title: &str)
    ensures
        match uninstall_target_title(action_title@) {
            Some(t) => if has_title_ic(strings(old(suppressed)@), t) {
                final(suppressed)@ == old(suppressed)@
            } else {
                strings(final(suppressed)@) == strings(old(suppressed)@).push(t)
            },
            None => final(suppressed)@ == old(suppressed)@,
        },
{
    let target = match uninstall_target_title_from_action_title(action_title) {
        Some(t) => t,
        None => {
            return;
        },
    };
    let mut i: usize = 0;
    while i < suppressed.len()
        invariant
            i <= suppressed@.len(),
            suppressed@ == old(suppressed)@,
            uninstall_target_title(action_title@) == Some(target@),
            forall|k: int| 0 <= k < i ==> !text::eq_ic(#[trigger] strings(suppressed@)[k], target@),
        decreases suppressed@.len() - i,
    {
        proof {
            assert(strings(suppressed@)[i as int] == suppressed@[i as int]@);
        }
        if text::eq_ignore_ascii_case(suppressed[i].as_str(), target.as_str()) {
            proof {
                assert(text::eq_ic(strings(suppressed@)[i as int], target@));
            }
            return;
        }
        i = i + 1;
    }
    let ghost before = suppressed@;
    suppressed.push(target);
    proof {
        assert(strings(suppressed@) =~= strings(before).push(target@));
    }
}


/// No two titles are equal up to ASCII case.
pub open spec fn distinct_ic(titles: Seq<Seq<char>>) -> bool {
    forall|i: int, j: int| 0 <= i < j < titles.len() ==> !text::eq_ic(#[trigger] titles[i], #[trigger] titles[j])
}

/// Tracking keeps the suppressed titles distinct up to ASCII case, and
/// tracking the same title again changes nothing: a title that the list did
/// not hold is added once, after which the list holds it.
pub proof fn law_suppression_stays_distinct(titles: Seq<Seq<char>>, t: Seq<char>)
    requires
        distinct_ic(titles),
    ensures
        !has_title_ic(titles, t) ==> distinct_ic(titles.push(t)) && has_title_ic(titles.push(t), t),
{
    if !has_title_ic(titles, t) {
        let u = titles.push(t);
        assert forall|i: int, j: int| 0 <= i < j < u.len() implies !text::eq_ic(#[trigger] u[i], #[trigger] u[j]) by {
            if j == titles.len() {
                assert(u[i] == titles[i]);
                assert(!text::eq_ic(titles[i], t));
            } else {
                assert(u[i] == titles[i] && u[j] == titles[j]);
            }
        }
        assert(text::eq_ic(u[titles.len() as int], t));
    }
}

/// The normalized, non-empty keys of the suppressed titles.
pub open spec fn suppression_keys(titles: Seq<Seq<char>>) -> Seq<Seq<char>>
    decreases titles.len(),
{
    if titles.len() == 0 {
        Seq::empty()
    } else {
        let k = normalize(titles.last());
        suppression_keys(titles.drop_last()) + (if k.len() > 0 { seq![k] } else { Seq::empty() })
    }
}

/// The title key an item is checked under: an app's normalized title, or the
/// normalized target of an uninstall action; other items are never hidden.
pub open spec fn suppression_title_key(item: SearchItem) -> Option<Seq<char>> {
    if kind_is(item.kind@, "app"@) {
        Some(item.norm_title())
    } else if kind_is(item.kind@, "action"@) && text::starts_with(
        item.id@,
        "__swiftfind_action_uninstall__:"@,
    ) {
        Some(
            match uninstall_target_title(item.title@) {
                Some(t) => normalize(t),
                None => Seq::empty(),
            },
        )
    } else {
        None
    }
}

/// An item survives suppression unless its title key matches a suppressed key.
pub open spec fn survives_suppression(item: SearchItem, keys: Seq<Seq<char>>) -> bool {
    match suppression_title_key(item) {
        None => true,
        Some(k) => k.len() == 0 || !(exists|j: int| 0 <= j < keys.len() && uninstall_titles_match(k, #[trigger] keys[j])),
    }
}

/// The items of `s` that survive suppression, in order.
pub open spec fn surviving(s: Seq<SearchItem>, keys: Seq<Seq<char>>) -> Seq<SearchItem>
    decreases s.len(),
{
    if s.len() == 0 {
        Seq::empty()
    } else {
        surviving(s.drop_last(), keys) + (if survives_suppression(s.last(), keys) {
            seq![s.last()]
        } else {
            Seq::empty()
        })
    }
}

fn suppression_title_key_of(item: &SearchItem) -> (r: Option<Vec<char>>)
    ensures
        match r {
            Some(k) => suppression_title_key(*item) == Some(k@),
            None => suppression_title_key(*item) is None,
        },
{
    let kind = text::chars_of(item.kind.as_str());
    if text::vec_eq_ic(&kind, &text::chars_of("app")) {
        return Some(text::chars_of(item.normalized_title()));
    }
    if text::vec_eq_ic(&kind, &text::chars_of("action")) && text::str_starts_with(
        item.id.as_str(),
        crate::uninstall_registry::ACTION_UNINSTALL_PREFIX,
    ) {
        proof {
            assert(crate::uninstall_registry::ACTION_UNINSTALL_PREFIX@ == "__swiftfind_action_uninstall__:"@);
        }
        return Some(
            match uninstall_target_title_from_action_title(item.title.as_str()) {
                Some(t) => {
                    let tv = text::chars_of(t.as_str());
                    crate::model::normalize_chars(&tv)
                },
                None => Vec::new(),
            },
        );
    }
    proof {
        assert(crate::uninstall_registry::ACTION_UNINSTALL_PREFIX@ == "__swiftfind_action_uninstall__:"@);
    }
    None
}

/// Removes from `results` the apps, and the uninstall actions, whose titles
/// match a suppressed title.
pub fn filter_suppressed_uninstall_results(results: &mut Vec<SearchItem>, suppressed_uninstall_titles: &[String])
    ensures
        ({
            let keys = suppression_keys(texts(suppressed_uninstall_titles@));
            if old(results)@.len() == 0 || suppressed_uninstall_titles@.len() == 0 || keys.len() == 0 {
                final(results)@ == old(results)@
            } else {
                final(results)@ == surviving(old(results)@, keys)
            }
        }),
{
    if results.len() == 0 || suppressed_uninstall_titles.len() == 0 {
        return;
    }
    let mut keys: Vec<Vec<char>> = Vec::new();
    let mut i: usize = 0;
    while i < suppressed_uninstall_titles.len()
        invariant
            i <= suppressed_uninstall_titles@.len(),
            views(keys@) == suppression_keys(texts(suppressed_uninstall_titles@).take(i as int)),
        decreases suppressed_uninstall_titles@.len() - i,
    {
        let tv = text::chars_of(suppressed_uninstall_titles[i].as_str());
        let k = crate::model::normalize_chars(&tv);
        proof {
            let p = texts(suppressed_uninstall_titles@).take((i + 1) as int);
            assert(p.drop_last() =~= texts(suppressed_uninstall_titles@).take(i as int));
            assert(p.last() == suppressed_uninstall_titles@[i as int]@);
        }
        if k.len() > 0 {
            let ghost before = keys@;
            keys.push(k);
            proof {
                assert(views(keys@) =~= views(before).push(keys@.last()@));
            }
        } else {
            proof {
                assert(views(keys@) =~= views(keys@) + Seq::<Seq<char>>::empty());
            }
        }
        i = i + 1;
    }
    proof {
        assert(texts(suppressed_uninstall_titles@).take(suppressed_uninstall_titles@.len() as int)
            =~= texts(suppressed_uninstall_titles@));
    }
    if keys.len() == 0 {
        return;
    }
    let ghost kv = views(keys@);
    let mut out: Vec<SearchItem> = Vec::new();
    let mut j: usize = 0;
    while j < results.len()
        invariant
            j <= results@.len(),
            results@ == old(results)@,
            kv == views(keys@),
            out@ == surviving(results@.take(j as int), kv),
        decreases results@.len() - j,
    {
        let item = &results[j];
        let keep = match suppression_title_key_of(item) {
            None => true,
            Some(k) => {
                if k.len() == 0 {
                    true
                } else {
                    let mut m: usize = 0;
                    let mut hit = false;
                    while m < keys.len()
                        invariant
                            m <= keys@.len(),
                            kv == views(keys@),
                            hit == exists|x: int| 0 <= x < m && uninstall_titles_match(k@, #[trigger] kv[x]),
                        decreases keys@.len() - m,
                    {
                        proof {
                            assert(kv[m as int] == keys@[m as int]@);
                        }
                        if uninstall_title_matches(&k, &keys[m]) {
                            hit = true;
                        }
                        m = m + 1;
                    }
                    !hit
                }
            },
        };
        proof {
            let p = results@.take((j + 1) as int);
            assert(p.drop_last() =~= results@.take(j as int));
            assert(p.last() == results@[j as int]);
            assert(keep == survives_suppression(results@[j as int], kv));
        }
        if keep {
            let c = item.clone();
            out.push(c);
        } else {
            proof {
                assert(out@ =~= out@ + Seq::<SearchItem>::empty());
            }
        }
        j = j + 1;
    }
    proof {
        assert(results@.take(results@.len() as int) =~= results@);
    }
    *results = out;
}

/// The confirmation step of an uninstall: a confirm action naming the target,
/// then a cancel action.
pub open spec fn confirmation_title(action_title: Seq<char>) -> Seq<char> {
    let target = match uninstall_target_title(action_title) {
        Some(t) => t,
        None => text::trim(action_title),
    };
    if target.len() == 0 {
        "Confirm uninstall"@
    } else {
        "Confirm uninstall "@ + text::trim(target)
    }
}

/// The two results of an uninstall's confirmation step for `action`.
pub open spec fn confirmation_results(action: SearchItem, out: Seq<SearchItem>) -> bool {
    &&& out.len() == 2
    &&& out[0].id@ == "action:uninstall:confirm"@
    &&& out[0].kind@ == "action"@
    &&& out[0].title@ == confirmation_title(action.title@)
    &&& out[0].path@ == "Open app uninstaller"@
    &&& out[0].normalized_from_fields()
    &&& out[1].id@ == "action:uninstall:cancel"@
    &&& out[1].kind@ == "action"@
    &&& out[1].title@ == "Cancel"@
    &&& out[1].path@ == "Return to previous results"@
    &&& out[1].normalized_from_fields()
}

pub fn uninstall_confirmation_results(uninstall_action: &SearchItem) -> (out: Vec<SearchItem>)
    ensures
        confirmation_results(*uninstall_action, out@),
{
    let target = match uninstall_target_title_from_action_title(uninstall_action.title.as_str()) {
        Some(t) => t,
        None => text::trim_str(uninstall_action.title.as_str()),
    };
    let confirm_title = if target.as_str().unicode_len() == 0 {
        text::owned("Confirm uninstall")
    } else {
        let t = text::trim_str(target.as_str());
        text::concat("Confirm uninstall ", t.as_str())
    };
    let mut out: Vec<SearchItem> = Vec::new();
    out.push(SearchItem::new(ACTION_UNINSTALL_CONFIRM_ID, "action", confirm_title.as_str(), "Open app uninstaller"));
    out.push(SearchItem::new(ACTION_UNINSTALL_CANCEL_ID, "action", "Cancel", "Return to previous results"));
    out
}

/// The id of the action that confirms an uninstall.
pub const ACTION_UNINSTALL_CONFIRM_ID: &'static str = "action:uninstall:confirm";

/// The id of the action that cancels an uninstall.
pub const ACTION_UNINSTALL_CANCEL_ID: &'static str = "action:uninstall:cancel";


// ---------------------------------------------------------------------------
// Overlay result clean-up
// ---------------------------------------------------------------------------

/// A path compared without regard to slash direction or ASCII case.
pub open spec fn path_key(path: Seq<char>) -> Seq<char> {
    text::trim(path).map_values(|c: char| if c == '/' { '\\' } else { text::ascii_lower_char(c) })
}

pub fn normalize_path_key(path: &str) -> (out: String)
    ensures
        out@ == path_key(path@),
{
    let t = text::trimmed_chars(path);
    let mut v: Vec<char> = Vec::new();
    let mut i: usize = 0;
    while i < t.len()
        invariant
            i <= t@.len(),
            t@ == text::trim(path@),
            v@ == t@.take(i as int).map_values(|c: char| if c == '/' { '\\' } else { text::ascii_lower_char(c) }),
        decreases t@.len() - i,
    {
        let c = t[i];
        let m = if c == '/' { '\\' } else { text::lower_char(c) };
        v.push(m);
        proof {
            assert(t@.take((i + 1) as int).map_values(|c: char| if c == '/' { '\\' } else { text::ascii_lower_char(c) })
                =~= t@.take(i as int).map_values(|c: char| if c == '/' { '\\' } else { text::ascii_lower_char(c) }).push(m));
        }
        i = i + 1;
    }
    proof {
        assert(t@.take(t@.len() as int) =~= t@);
    }
    text::string_of(&v)
}

/// Some prefix of `s` is exactly `b` bytes long (`b` is a character boundary).
pub open spec fn has_byte_boundary(s: Seq<char>, b: int) -> bool {
    exists|k: int| 0 <= k <= s.len() && text::byte_len(#[trigger] s.take(k)) == b
}

/// Slicing off the last four bytes of the trimmed text is possible: it is
/// shorter than four bytes, or four bytes from its end is a character boundary.
pub open spec fn lnk_slice_ok(s: Seq<char>) -> bool {
    let t = text::trim(s);
    text::byte_len(t) < 4 || has_byte_boundary(t, text::byte_len(t) - 4)
}

/// The trimmed text ends in `.lnk`, in any ASCII case.
pub open spec fn ends_in_lnk(s: Seq<char>) -> bool {
    let t = text::trim(s);
    text::byte_len(t) >= 4 && t.len() >= 4 && text::eq_ic(t.skip(t.len() - 4), ".lnk"@)
}

fn ends_in_lnk_exec(t: &Vec<char>) -> (b: bool)
    ensures
        b == (text::byte_len(t@) >= 4 && t@.len() >= 4 && text::eq_ic(t@.skip(t@.len() - 4), ".lnk"@)),
{
    if text::byte_len_of(t) < 4 || t.len() < 4 {
        return false;
    }
    let tail = text::slice_vec(t, t.len() - 4, t.len());
    proof {
        assert(tail@ =~= t@.skip(t@.len() - 4));
    }
    text::vec_eq_ic(&tail, &text::chars_of(".lnk"))
}

/// Whether a path names a Windows shortcut (`.lnk`).
pub fn is_windows_shortcut_path(path: &str) -> (b: bool)
    requires
        lnk_slice_ok(path@),
    ensures
        b == ends_in_lnk(path@),
{
    let t = text::trimmed_chars(path);
    ends_in_lnk_exec(&t)
}

/// The key of a title: its trimmed, normalized text.
pub open spec fn title_key(title: Seq<char>) -> Seq<char> {
    normalize(text::trim(title))
}

pub fn normalize_title_key(title: &str) -> (out: String)
    ensures
        out@ == title_key(title@),
{
    let t = text::trimmed_chars(title);
    let n = crate::model::normalize_chars(&t);
    text::string_of(&n)
}

/// The key of a shortcut's title without its `.lnk` ending.
pub open spec fn shortcut_title_key(title: Seq<char>) -> Seq<char> {
    let t = text::trim(title);
    if ends_in_lnk(title) {
        title_key(t.take(t.len() - 4))
    } else {
        title_key(t)
    }
}

pub fn shortcut_base_title_key(title: &str) -> (out: Vec<char>)
    requires
        lnk_slice_ok(title@),
    ensures
        out@ == shortcut_title_key(title@),
{
    let t = text::trimmed_chars(title);
    let base = if ends_in_lnk_exec(&t) {
        text::slice_vec(&t, 0, t.len() - 4)
    } else {
        text::slice_vec(&t, 0, t.len())
    };
    proof {
        assert(t@.subrange(0, t@.len() as int) =~= t@);
        if t@.len() >= 4 {
            assert(t@.subrange(0, t@.len() - 4) =~= t@.take(t@.len() - 4));
        }
    }
    let trimmed = text::trim_vec(&base);
    crate::model::normalize_chars(&trimmed)
}

/// The trimmed, ASCII-lowercased text ends in a document extension.
pub open spec fn has_document_extension(value: Seq<char>) -> bool {
    let n = text::ascii_lower(text::trim(value));
    n.len() > 0 && (text::ends_with(n, ".url"@)
        || text::ends_with(n, ".pdf"@)
        || text::ends_with(n, ".htm"@)
        || text::ends_with(n, ".html"@)
        || text::ends_with(n, ".xhtml"@)
        || text::ends_with(n, ".mht"@)
        || text::ends_with(n, ".mhtml"@)
        || text::ends_with(n, ".chm"@)
        || text::ends_with(n, ".txt"@)
        || text::ends_with(n, ".md"@)
        || text::ends_with(n, ".rtf"@)
        || text::ends_with(n, ".doc"@)
        || text::ends_with(n, ".docx"@)
        || text::ends_with(n, ".xls"@)
        || text::ends_with(n, ".xlsx"@)
        || text::ends_with(n, ".ppt"@)
        || text::ends_with(n, ".pptx"@)
        || text::ends_with(n, ".csv"@)
        || text::ends_with(n, ".xml"@)
        || text::ends_with(n, ".json"@)
        || text::ends_with(n, ".yaml"@)
        || text::ends_with(n, ".yml"@)
        || text::ends_with(n, ".ini"@)
        || text::ends_with(n, ".log"@)
        || text::ends_with(n, ".php"@))
}

pub fn has_non_app_document_extension(value: &str) -> (b: bool)
    ensures
        b == has_document_extension(value@),
{
    let t = text::trimmed_chars(value);
    let n = text::lower_vec(&t);
    n.len() > 0 && (text::vec_ends_with(&n, &text::chars_of(".url"))
        || text::vec_ends_with(&n, &text::chars_of(".pdf"))
        || text::vec_ends_with(&n, &text::chars_of(".htm"))
        || text::vec_ends_with(&n, &text::chars_of(".html"))
        || text::vec_ends_with(&n, &text::chars_of(".xhtml"))
        || text::vec_ends_with(&n, &text::chars_of(".mht"))
        || text::vec_ends_with(&n, &text::chars_of(".mhtml"))
        || text::vec_ends_with(&n, &text::chars_of(".chm"))
        || text::vec_ends_with(&n, &text::chars_of(".txt"))
        || text::vec_ends_with(&n, &text::chars_of(".md"))
        || text::vec_ends_with(&n, &text::chars_of(".rtf"))
        || text::vec_ends_with(&n, &text::chars_of(".doc"))
        || text::vec_ends_with(&n, &text::chars_of(".docx"))
        || text::vec_ends_with(&n, &text::chars_of(".xls"))
        || text::vec_ends_with(&n, &text::chars_of(".xlsx"))
        || text::vec_ends_with(&n, &text::chars_of(".ppt"))
        || text::vec_ends_with(&n, &text::chars_of(".pptx"))
        || text::vec_ends_with(&n, &text::chars_of(".csv"))
        || text::vec_ends_with(&n, &text::chars_of(".xml"))
        || text::vec_ends_with(&n, &text::chars_of(".json"))
        || text::vec_ends_with(&n, &text::chars_of(".yaml"))
        || text::vec_ends_with(&n, &text::chars_of(".yml"))
        || text::vec_ends_with(&n, &text::chars_of(".ini"))
        || text::vec_ends_with(&n, &text::chars_of(".log"))
        || text::vec_ends_with(&n, &text::chars_of(".php")))
}

/// Start-menu entries that are documentation, samples, help pages or links
/// rather than applications.
pub open spec fn hidden_start_menu_entry(item: SearchItem) -> bool {
    let lower = text::ascii_lower(text::trim(item.title@));
    let pl = path_key(item.path@);
    let shell = text::starts_with(pl, "shell:appsfolder\\"@);
    let has_docs = text::contains(lower, "documentation"@) || text::contains(lower, " docs"@);
    let has_sample = text::contains(lower, "sample"@);
    let has_tools_for = text::contains(lower, "tools for"@);
    let has_help = text::contains(lower, "manual"@) || text::contains(lower, "faq"@) || text::contains(
        lower,
        "website"@,
    ) || text::contains(lower, "web page"@) || text::contains(lower, "webpage"@) || text::contains(
        lower,
        "guide"@,
    ) || text::contains(lower, "readme"@) || text::contains(lower, "release notes"@)
        || text::contains(lower, "changelog"@);
    let has_apps = text::contains(lower, " app"@) || text::contains(lower, "apps"@);
    let has_platform = text::contains(lower, "desktop"@) || text::contains(lower, "uwp"@)
        || text::contains(lower, "winui"@);
    if !kind_is(item.kind@, "app"@) {
        false
    } else if text::contains(pl, "\\windows kits\\10\\shortcuts\\"@) && text::ends_with(pl, ".url"@) {
        true
    } else if has_document_extension(pl) {
        true
    } else if shell && text::contains(pl, "://"@) {
        true
    } else if lower.len() == 0 {
        false
    } else if has_document_extension(lower) {
        true
    } else {
        (has_docs && has_apps) || (has_sample && (has_apps || has_platform)) || (has_tools_for
            && has_apps && has_platform) || (has_help && (text::ends_with(pl, ".lnk"@) || shell))
    }
}

fn contains_lit(v: &Vec<char>, p: &str) -> (b: bool)
    ensures
        b == text::contains(v@, p@),
{
    let pv = text::chars_of(p);
    text::vec_contains(v, &pv)
}

pub fn should_hide_known_start_menu_doc_sample_entry(item: &SearchItem) -> (b: bool)
    ensures
        b == hidden_start_menu_entry(*item),
{
    let kind = text::chars_of(item.kind.as_str());
    if !text::vec_eq_ic(&kind, &text::chars_of("app")) {
        return false;
    }
    let tt = text::trimmed_chars(item.title.as_str());
    let lower = text::lower_vec(&tt);
    let pls = normalize_path_key(item.path.as_str());
    let pl = text::chars_of(pls.as_str());
    let shell = text::vec_starts_with(&pl, &text::chars_of("shell:appsfolder\\"));
    if contains_lit(&pl, "\\windows kits\\10\\shortcuts\\") && text::vec_ends_with(&pl, &text::chars_of(".url")) {
        return true;
    }
    if has_non_app_document_extension(pls.as_str()) {
        return true;
    }
    if shell && contains_lit(&pl, "://") {
        return true;
    }
    if lower.len() == 0 {
        return false;
    }
    let ls = text::string_of(&lower);
    if has_non_app_document_extension(ls.as_str()) {
        proof {
            assert(lower@ == text::ascii_lower(text::trim(item.title@)));
        }
        return true;
    }
    let has_docs = contains_lit(&lower, "documentation") || contains_lit(&lower, " docs");
    let has_sample = contains_lit(&lower, "sample");
    let has_tools_for = contains_lit(&lower, "tools for");
    let has_help = contains_lit(&lower, "manual") || contains_lit(&lower, "faq") || contains_lit(
        &lower,
        "website",
    ) || contains_lit(&lower, "web page") || contains_lit(&lower, "webpage") || contains_lit(
        &lower,
        "guide",
    ) || contains_lit(&lower, "readme") || contains_lit(&lower, "release notes") || contains_lit(
        &lower,
        "changelog",
    );
    let has_apps = contains_lit(&lower, " app") || contains_lit(&lower, "apps");
    let has_platform = contains_lit(&lower, "desktop") || contains_lit(&lower, "uwp") || contains_lit(
        &lower,
        "winui",
    );
    (has_docs && has_apps) || (has_sample && (has_apps || has_platform)) || (has_tools_for && has_apps
        && has_platform) || (has_help && (text::vec_ends_with(&pl, &text::chars_of(".lnk")) || shell))
}


/// An app whose title key joins the set of app titles seen.
pub open spec fn counts_as_app_title(item: SearchItem) -> bool {
    kind_is(item.kind@, "app"@) && !hidden_start_menu_entry(item) && title_key(item.title@).len() > 0
}

/// Some item among `all[..n]` contributes the app title key `k`.
pub open spec fn app_title_seen(all: Seq<SearchItem>, n: int, k: Seq<char>) -> bool {
    exists|j: int| 0 <= j < n && counts_as_app_title(#[trigger] all[j]) && title_key(all[j].title@) == k
}

/// A shortcut file that duplicates an app listed among the results.
pub open spec fn duplicates_app_shortcut(all: Seq<SearchItem>, item: SearchItem) -> bool {
    &&& !kind_is(item.kind@, "app"@)
    &&& kind_is(item.kind@, "file"@)
    &&& ends_in_lnk(item.path@)
    &&& app_title_seen(all, all.len() as int, shortcut_title_key(item.title@))
}

/// A non-app item whose path key joins the set of paths seen.
pub open spec fn counts_as_path(all: Seq<SearchItem>, item: SearchItem) -> bool {
    !kind_is(item.kind@, "app"@) && !duplicates_app_shortcut(all, item) && path_key(item.path@).len() > 0
}

pub open spec fn path_seen(all: Seq<SearchItem>, n: int, k: Seq<char>) -> bool {
    exists|j: int| 0 <= j < n && counts_as_path(all, #[trigger] all[j]) && path_key(all[j].path@) == k
}

/// Whether result `i` stays: hidden start-menu entries go; an app stays unless
/// an earlier app had the same title key; a shortcut file duplicating an app
/// goes; another item stays unless an earlier one had the same path key.
pub open spec fn dedupe_keeps(all: Seq<SearchItem>, i: int) -> bool {
    let item = all[i];
    if kind_is(item.kind@, "app"@) {
        if hidden_start_menu_entry(item) {
            false
        } else if title_key(item.title@).len() == 0 {
            true
        } else {
            !app_title_seen(all, i, title_key(item.title@))
        }
    } else if duplicates_app_shortcut(all, item) {
        false
    } else if path_key(item.path@).len() == 0 {
        true
    } else {
        !path_seen(all, i, path_key(item.path@))
    }
}

/// The kept results among the first `n`, in order.
pub open spec fn deduped(all: Seq<SearchItem>, n: int) -> Seq<SearchItem>
    decreases n,
{
    if n <= 0 {
        Seq::empty()
    } else {
        deduped(all, n - 1) + (if dedupe_keeps(all, n - 1) { seq![all[n - 1]] } else { Seq::empty() })
    }
}

/// The text `k` is among `v`.
pub open spec fn in_keys(v: Seq<Seq<char>>, k: Seq<char>) -> bool {
    exists|x: int| 0 <= x < v.len() && v[x] == k
}

fn has_key(v: &Vec<Vec<char>>, k: &Vec<char>) -> (b: bool)
    ensures
        b == in_keys(views(v@), k@),
{
    let mut i: usize = 0;
    while i < v.len()
        invariant
            i <= v@.len(),
            forall|x: int| 0 <= x < i ==> views(v@)[x] != k@,
        decreases v@.len() - i,
    {
        proof {
            assert(views(v@)[i as int] == v@[i as int]@);
        }
        if text::vec_eq(&v[i], k) {
            return true;
        }
        i = i + 1;
    }
    false
}

proof fn lemma_in_keys_push(v: Seq<Seq<char>>, x: Seq<char>, k: Seq<char>)
    ensures
        in_keys(v.push(x), k) == (in_keys(v, k) || x == k),
{
    let w = v.push(x);
    if in_keys(w, k) {
        let i = choose|i: int| 0 <= i < w.len() && w[i] == k;
        if i < v.len() {
            assert(v[i] == w[i]);
        }
    }
    if in_keys(v, k) {
        let i = choose|i: int| 0 <= i < v.len() && v[i] == k;
        assert(w[i] == v[i]);
    }
    if x == k {
        assert(w[v.len() as int] == x);
    }
}

/// The file items that Windows-shortcut checks slice can be sliced.
pub open spec fn shortcut_checks_ok(all: Seq<SearchItem>) -> bool {
    forall|i: int| 0 <= i < all.len() && kind_is((#[trigger] all[i]).kind@, "file"@) ==> lnk_slice_ok(all[i].path@)
        && (ends_in_lnk(all[i].path@) ==> lnk_slice_ok(all[i].title@))
}

/// Removes duplicate overlay results, keeping the first of each, and hidden
/// start-menu entries.
pub fn dedupe_overlay_results(results: &mut Vec<SearchItem>)
    requires
        shortcut_checks_ok(old(results)@),
    ensures
        final(results)@ == deduped(old(results)@, old(results)@.len() as int),
{
    let ghost all = results@;
    let mut app_keys: Vec<Vec<char>> = Vec::new();
    let mut i: usize = 0;
    while i < results.len()
        invariant
            i <= results@.len(),
            results@ == all,
            forall|k: Seq<char>| #[trigger] in_keys(views(app_keys@), k) == app_title_seen(all, i as int, k),
        decreases results@.len() - i,
    {
        let item = &results[i];
        let kind = text::chars_of(item.kind.as_str());
        let is_app = text::vec_eq_ic(&kind, &text::chars_of("app"));
        let ghost before = views(app_keys@);
        if is_app && !should_hide_known_start_menu_doc_sample_entry(item) {
            let ks = normalize_title_key(item.title.as_str());
            let k = text::chars_of(ks.as_str());
            if k.len() > 0 {
                app_keys.push(k);
                proof {
                    assert(views(app_keys@) =~= before.push(k@));
                    assert forall|kk: Seq<char>| #[trigger] in_keys(views(app_keys@), kk) == app_title_seen(all, i + 1, kk) by {
                        lemma_in_keys_push(before, k@, kk);
                        lemma_app_seen_step(all, i as int, kk);
                    }
                }
            } else {
                proof {
                    assert forall|kk: Seq<char>| #[trigger] in_keys(views(app_keys@), kk) == app_title_seen(all, i + 1, kk) by {
                        lemma_app_seen_step(all, i as int, kk);
                    }
                }
            }
        } else {
            proof {
                assert forall|kk: Seq<char>| #[trigger] in_keys(views(app_keys@), kk) == app_title_seen(all, i + 1, kk) by {
                    lemma_app_seen_step(all, i as int, kk);
                }
            }
        }
        i = i + 1;
    }
    let mut seen_titles: Vec<Vec<char>> = Vec::new();
    let mut seen_paths: Vec<Vec<char>> = Vec::new();
    let mut out: Vec<SearchItem> = Vec::new();
    let mut j: usize = 0;
    while j < results.len()
        invariant
            j <= results@.len(),
            results@ == all,
            shortcut_checks_ok(all),
            forall|k: Seq<char>| #[trigger] in_keys(views(app_keys@), k) == app_title_seen(all, all.len() as int, k),
            forall|k: Seq<char>| #[trigger] in_keys(views(seen_titles@), k) == app_title_seen(all, j as int, k),
            forall|k: Seq<char>| #[trigger] in_keys(views(seen_paths@), k) == path_seen(all, j as int, k),
            out@ == deduped(all, j as int),
        decreases results@.len() - j,
    {
        let item = &results[j];
        let kind = text::chars_of(item.kind.as_str());
        let is_app = text::vec_eq_ic(&kind, &text::chars_of("app"));
        let ghost bt = views(seen_titles@);
        let ghost bp = views(seen_paths@);
        let keep: bool;
        if is_app {
            if should_hide_known_start_menu_doc_sample_entry(item) {
                keep = false;
                proof {
                    lemma_steps_other(all, j as int);
                }
            } else {
                let ks = normalize_title_key(item.title.as_str());
                let k = text::chars_of(ks.as_str());
                if k.len() == 0 {
                    keep = true;
                    proof {
                        lemma_steps_other(all, j as int);
                    }
                } else {
                    let present = has_key(&seen_titles, &k);
                    keep = !present;
                    if !present {
                        seen_titles.push(k);
                    }
                    proof {
                        assert(in_keys(bt, k@) == app_title_seen(all, j as int, k@));
                        if present {
                            assert(views(seen_titles@) == bt);
                        } else {
                            assert(views(seen_titles@) =~= bt.push(k@));
                        }
                        assert forall|kk: Seq<char>| #[trigger] in_keys(views(seen_titles@), kk) == app_title_seen(all, j + 1, kk) by {
                            lemma_in_keys_push(bt, k@, kk);
                            lemma_app_seen_step(all, j as int, kk);
                        }
                        assert forall|kk: Seq<char>| #[trigger] in_keys(views(seen_paths@), kk) == path_seen(all, j + 1, kk) by {
                            lemma_path_seen_step(all, j as int, kk);
                        }
                    }
                }
            }
        } else {
            let is_file = text::vec_eq_ic(&kind, &text::chars_of("file"));
            let mut dup = false;
            if is_file {
                proof {
                    assert(kind_is(all[j as int].kind@, "file"@));
                }
                if is_windows_shortcut_path(item.path.as_str()) {
                    let base = shortcut_base_title_key(item.title.as_str());
                    dup = has_key(&app_keys, &base);
                }
            }
            proof {
                assert(dup == duplicates_app_shortcut(all, all[j as int]));
            }
            if dup {
                keep = false;
                proof {
                    lemma_steps_other(all, j as int);
                }
            } else {
                let ps = normalize_path_key(item.path.as_str());
                let pk = text::chars_of(ps.as_str());
                if pk.len() == 0 {
                    keep = true;
                    proof {
                        lemma_steps_other(all, j as int);
                    }
                } else {
                    let present = has_key(&seen_paths, &pk);
                    keep = !present;
                    if !present {
                        seen_paths.push(pk);
                    }
                    proof {
                        if present {
                            assert(views(seen_paths@) == bp);
                        } else {
                            assert(views(seen_paths@) =~= bp.push(pk@));
                        }
                        assert forall|kk: Seq<char>| #[trigger] in_keys(views(seen_paths@), kk) == path_seen(all, j + 1, kk) by {
                            lemma_in_keys_push(bp, pk@, kk);
                            lemma_path_seen_step(all, j as int, kk);
                        }
                        assert forall|kk: Seq<char>| #[trigger] in_keys(views(seen_titles@), kk) == app_title_seen(all, j + 1, kk) by {
                            lemma_app_seen_step(all, j as int, kk);
                        }
                    }
                }
            }
        }
        proof {
            assert(keep == dedupe_keeps(all, j as int));
        }
        if keep {
            out.push(results[j].clone());
        } else {
            proof {
                assert(out@ =~= out@ + Seq::<SearchItem>::empty());
            }
        }
        j = j + 1;
    }
    *results = out;
}

proof fn lemma_app_seen_step(all: Seq<SearchItem>, i: int, k: Seq<char>)
    requires
        0 <= i < all.len(),
    ensures
        app_title_seen(all, i + 1, k) == (app_title_seen(all, i, k) || (counts_as_app_title(all[i])
            && title_key(all[i].title@) == k)),
{
    if app_title_seen(all, i + 1, k) && !app_title_seen(all, i, k) {
        let j = choose|j: int| 0 <= j < i + 1 && counts_as_app_title(#[trigger] all[j]) && title_key(all[j].title@) == k;
        assert(j == i);
    }
}

proof fn lemma_path_seen_step(all: Seq<SearchItem>, i: int, k: Seq<char>)
    requires
        0 <= i < all.len(),
    ensures
        path_seen(all, i + 1, k) == (path_seen(all, i, k) || (counts_as_path(all, all[i])
            && path_key(all[i].path@) == k)),
{
    if path_seen(all, i + 1, k) && !path_seen(all, i, k) {
        let j = choose|j: int| 0 <= j < i + 1 && counts_as_path(all, #[trigger] all[j]) && path_key(all[j].path@) == k;
        assert(j == i);
    }
}

proof fn lemma_steps_other(all: Seq<SearchItem>, i: int)
    requires
        0 <= i < all.len(),
    ensures
        forall|k: Seq<char>| #[trigger] app_title_seen(all, i + 1, k) == (app_title_seen(all, i, k) || (counts_as_app_title(all[i])
            && title_key(all[i].title@) == k)),
        forall|k: Seq<char>| #[trigger] path_seen(all, i + 1, k) == (path_seen(all, i, k) || (counts_as_path(all, all[i])
            && path_key(all[i].path@) == k)),
{
    assert forall|k: Seq<char>| #[trigger] app_title_seen(all, i + 1, k) == (app_title_seen(all, i, k) || (counts_as_app_title(all[i])
            && title_key(all[i].title@) == k)) by {
        lemma_app_seen_step(all, i, k);
    }
    assert forall|k: Seq<char>| #[trigger] path_seen(all, i + 1, k) == (path_seen(all, i, k) || (counts_as_path(all, all[i])
            && path_key(all[i].path@) == k)) by {
        lemma_path_seen_step(all, i, k);
    }
}


// ---------------------------------------------------------------------------
// Reading the runtime log
// ---------------------------------------------------------------------------

/// `l` without one trailing carriage return.
pub open spec fn strip_cr(l: Seq<char>) -> Seq<char> {
    if l.len() > 0 && l.last() == '\r' { l.drop_last() } else { l }
}

/// The lines of `s` (`str::lines`): split at `\n`, a `\r` before the `\n`
/// dropped, and no empty line after a final `\n`.
pub open spec fn text_lines(s: Seq<char>) -> Seq<Seq<char>> {
    let pieces = split_on(s, '\n');
    let body = pieces.drop_last().map_values(|l: Seq<char>| strip_cr(l));
    if pieces.last().len() > 0 { body.push(pieces.last()) } else { body }
}

pub fn lines_of(content: &str) -> (lines: Vec<Vec<char>>)
    ensures
        views(lines@) == text_lines(content@),
{
    let v = text::chars_of(content);
    let pieces = split_chars(&v, '\n');
    proof {
        lemma_split_on_nonempty(v@, '\n');
    }
    let ghost pv = views(pieces@);
    let last = pieces.len() - 1;
    let mut lines: Vec<Vec<char>> = Vec::new();
    let mut i: usize = 0;
    while i < last
        invariant
            i <= last,
            last == pieces@.len() - 1,
            pv == views(pieces@),
            views(lines@) == pv.drop_last().take(i as int).map_values(|l: Seq<char>| strip_cr(l)),
        decreases last - i,
    {
        let p = &pieces[i];
        let line = if p.len() > 0 && p[p.len() - 1] == '\r' {
            text::slice_vec(p, 0, p.len() - 1)
        } else {
            text::slice_vec(p, 0, p.len())
        };
        proof {
            assert(pv[i as int] == p@);
            assert(p@.subrange(0, p@.len() as int) =~= p@);
            if p@.len() > 0 {
                assert(p@.subrange(0, p@.len() - 1) =~= p@.drop_last());
            }
            assert(line@ == strip_cr(p@));
        }
        let ghost before = views(lines@);
        lines.push(line);
        proof {
            assert(views(lines@) =~= before.push(line@));
            assert(pv.drop_last().take((i + 1) as int).map_values(|l: Seq<char>| strip_cr(l))
                =~= pv.drop_last().take(i as int).map_values(|l: Seq<char>| strip_cr(l)).push(strip_cr(pv[i as int])));
        }
        i = i + 1;
    }
    proof {
        assert(pv.drop_last().take(last as int) =~= pv.drop_last());
        assert(pv.last() == pieces@[last as int]@);
    }
    if pieces[last].len() > 0 {
        let tail = text::slice_vec(&pieces[last], 0, pieces[last].len());
        let ghost before = views(lines@);
        proof {
            assert(pieces@[last as int]@.subrange(0, pieces@[last as int]@.len() as int) =~= pieces@[last as int]@);
        }
        lines.push(tail);
        proof {
            assert(views(lines@) =~= before.push(tail@));
        }
    }
    lines
}

/// The index of the last line that contains `token`.
pub open spec fn last_line_with(lines: Seq<Seq<char>>, token: Seq<char>) -> Option<int>
    decreases lines.len(),
{
    if lines.len() == 0 {
        None
    } else if text::contains(lines.last(), token) {
        Some(lines.len() - 1)
    } else {
        last_line_with(lines.drop_last(), token)
    }
}

fn last_line_index(lines: &Vec<Vec<char>>, token: &Vec<char>) -> (r: Option<usize>)
    ensures
        match r {
            Some(i) => last_line_with(views(lines@), token@) == Some(i as int) && i < lines@.len(),
            None => last_line_with(views(lines@), token@) is None,
        },
{
    let mut n: usize = lines.len();
    proof {
        assert(views(lines@).take(lines@.len() as int) =~= views(lines@));
    }
    while n > 0
        invariant
            n <= lines@.len(),
            last_line_with(views(lines@), token@) == last_line_with(views(lines@).take(n as int), token@),
        decreases n,
    {
        let ghost t = views(lines@).take(n as int);
        proof {
            assert(t.last() == lines@[n - 1]@);
            assert(t.drop_last() =~= views(lines@).take(n - 1));
        }
        if text::vec_contains(&lines[n - 1], token) {
            return Some(n - 1);
        }
        n = n - 1;
    }
    None
}

/// The last line of `content` that contains `token`.
pub open spec fn latest_line(content: Seq<char>, token: Seq<char>) -> Option<Seq<char>> {
    let ls = text_lines(content);
    match last_line_with(ls, token) {
        Some(i) => Some(ls[i]),
        None => None,
    }
}

pub fn latest_line_with_token(content: &str, token: &str) -> (r: Option<String>)
    ensures
        opt_string(r) == latest_line(content@, token@),
{
    let lines = lines_of(content);
    let t = text::chars_of(token);
    proof {
        assert(views(lines@).take(lines@.len() as int) =~= views(lines@));
    }
    match last_line_index(&lines, &t) {
        Some(i) => {
            proof {
                assert(views(lines@)[i as int] == lines@[i as int]@);
            }
            Some(text::string_of(&lines[i]))
        },
        None => None,
    }
}

/// The diagnostic lines that the status command reports.
#[derive(Debug, Clone, PartialEq, Eq)]
pub struct StatusDiagnosticsSnapshot {
    pub startup_index_line: Option<String>,
    pub last_provider_line: Option<String>,
    pub last_icon_cache_line: Option<String>,
    pub last_overlay_tuning_line: Option<String>,
    pub last_memory_snapshot_line: Option<String>,
}

/// The latest line of each diagnostic kind; `None` when the log has none of them.
pub open spec fn status_snapshot_matches(r: Option<StatusDiagnosticsSnapshot>, content: Seq<char>) -> bool {
    let a = latest_line(content, "startup indexed_items="@);
    let b = latest_line(content, "index_provider name="@);
    let c = latest_line(content, "overlay_icon_cache reason="@);
    let d = latest_line(content, "overlay_tuning "@);
    let e = latest_line(content, "memory_snapshot reason="@);
    match r {
        None => a is None && b is None && c is None && d is None && e is None,
        Some(s) => !(a is None && b is None && c is None && d is None && e is None)
            && opt_string(s.startup_index_line) == a && opt_string(s.last_provider_line) == b
            && opt_string(s.last_icon_cache_line) == c && opt_string(s.last_overlay_tuning_line) == d
            && opt_string(s.last_memory_snapshot_line) == e,
    }
}

pub fn parse_status_diagnostics_snapshot(content: &str) -> (r: Option<StatusDiagnosticsSnapshot>)
    ensures
        status_snapshot_matches(r, content@),
{
    let startup_index_line = latest_line_with_token(content, "startup indexed_items=");
    let last_provider_line = latest_line_with_token(content, "index_provider name=");
    let last_icon_cache_line = latest_line_with_token(content, "overlay_icon_cache reason=");
    let last_overlay_tuning_line = latest_line_with_token(content, "overlay_tuning ");
    let last_memory_snapshot_line = latest_line_with_token(content, "memory_snapshot reason=");
    if startup_index_line.is_none() && last_provider_line.is_none() && last_icon_cache_line.is_none()
        && last_overlay_tuning_line.is_none() && last_memory_snapshot_line.is_none() {
        return None;
    }
    Some(StatusDiagnosticsSnapshot {
        startup_index_line,
        last_provider_line,
        last_icon_cache_line,
        last_overlay_tuning_line,
        last_memory_snapshot_line,
    })
}

/// The number of lines among `lines` that contain `token`.
pub open spec fn count_lines_with(lines: Seq<Seq<char>>, token: Seq<char>) -> nat
    decreases lines.len(),
{
    if lines.len() == 0 {
        0
    } else {
        count_lines_with(lines.drop_last(), token) + (if text::contains(lines.last(), token) { 1nat } else { 0nat })
    }
}

/// How many symbol-only queries the log records as skipped.
pub fn count_skipped_symbol_query_guards(content: &str) -> (n: usize)
    ensures
        n == count_lines_with(text_lines(content@), "query_guard skip=non_searchable_symbol_only"@),
{
    let lines = lines_of(content);
    let token = text::chars_of("query_guard skip=non_searchable_symbol_only");
    let mut n: usize = 0;
    let mut i: usize = 0;
    while i < lines.len()
        invariant
            i <= lines@.len(),
            n == count_lines_with(views(lines@).take(i as int), token@),
            n <= i,
        decreases lines@.len() - i,
    {
        proof {
            let t = views(lines@).take((i + 1) as int);
            assert(t.drop_last() =~= views(lines@).take(i as int));
            assert(t.last() == lines@[i as int]@);
        }
        if text::vec_contains(&lines[i], &token) {
            n = n + 1;
        }
        i = i + 1;
    }
    proof {
        assert(views(lines@).take(lines@.len() as int) =~= views(lines@));
    }
    n
}

/// A decimal number as `str::parse` reads it for an unsigned type: an
/// optional `+`, then one or more digits, with a value at most `max`.
pub open spec fn parse_unsigned(s: Seq<char>, max: int) -> Option<int> {
    let d = if s.len() > 0 && s[0] == '+' { s.drop_first() } else { s };
    if d.len() > 0 && all_digits(d) && digits_value(d) <= max {
        Some(digits_value(d))
    } else {
        None
    }
}

pub fn parse_unsigned_text(s: &Vec<char>, max: u128) -> (r: Option<u128>)
    requires
        max >= 9,
    ensures
        match r {
            Some(n) => parse_unsigned(s@, max as int) == Some(n as int),
            None => parse_unsigned(s@, max as int) is None,
        },
{
    let start: usize = if s.len() > 0 && s[0] == '+' { 1 } else { 0 };
    let d = text::slice_vec(s, start, s.len());
    proof {
        if start == 1 {
            assert(d@ =~= s@.drop_first());
        } else {
            assert(d@ =~= s@);
        }
    }
    if d.len() == 0 {
        return None;
    }
    let mut value: u128 = 0;
    let mut i: usize = 0;
    while i < d.len()
        invariant
            i <= d@.len(),
            max >= 9,
            d@.len() > 0,
            d@ == (if s@.len() > 0 && s@[0] == '+' { s@.drop_first() } else { s@ }),
            all_digits(d@.take(i as int)),
            value == digits_value(d@.take(i as int)),
            value <= max,
        decreases d@.len() - i,
    {
        let c = d[i];
        proof {
            assert(d@.take((i + 1) as int).drop_last() =~= d@.take(i as int));
        }
        if !('0' <= c && c <= '9') {
            proof {
                assert(!is_ascii_digit(d@[i as int]));
            }
            return None;
        }
        let digit = (c as u32 - '0' as u32) as u128;
        proof {
            assert(forall|k: int| 0 <= k < i + 1 ==> #[trigger] d@.take((i + 1) as int)[k] == d@[k]);
            assert(all_digits(d@.take((i + 1) as int)));
        }
        if value > (max - digit) / 10 {
            proof {
                assert(value * 10 + digit > max) by (nonlinear_arith)
                    requires
                        value > (max - digit) / 10,
                        digit <= 9,
                        max >= 9,
                ;
                lemma_prefix_value_grows(d@, (i + 1) as int);
            }
            return None;
        }
        proof {
            assert(value * 10 + digit <= max) by (nonlinear_arith)
                requires
                    value <= (max - digit) / 10,
                    digit <= 9,
            ;
        }
        value = value * 10 + digit;
        i = i + 1;
    }
    proof {
        assert(d@.take(d@.len() as int) =~= d@);
    }
    Some(value)
}


/// The process id on a `PID:` line of `tasklist /FO LIST` output.
pub open spec fn pid_of_line(line: Seq<char>) -> Option<int> {
    let t = text::trim(line);
    if !text::starts_with(text::ascii_lower(t), "pid:"@) {
        None
    } else {
        parse_unsigned(text::trim(split_on(t, ':')[1]), u32::MAX as int)
    }
}

/// The process ids of `lines`, in order.
pub open spec fn pids_of_lines(lines: Seq<Seq<char>>) -> Seq<u32>
    decreases lines.len(),
{
    if lines.len() == 0 {
        Seq::empty()
    } else {
        pids_of_lines(lines.drop_last()) + match pid_of_line(lines.last()) {
            Some(p) => seq![p as u32],
            None => Seq::empty(),
        }
    }
}

pub fn parse_tasklist_pid_lines(content: &str) -> (pids: Vec<u32>)
    ensures
        pids@ == pids_of_lines(text_lines(content@)),
{
    let lines = lines_of(content);
    let mut pids: Vec<u32> = Vec::new();
    let mut i: usize = 0;
    while i < lines.len()
        invariant
            i <= lines@.len(),
            pids@ == pids_of_lines(views(lines@).take(i as int)),
        decreases lines@.len() - i,
    {
        proof {
            let t = views(lines@).take((i + 1) as int);
            assert(t.drop_last() =~= views(lines@).take(i as int));
            assert(t.last() == lines@[i as int]@);
        }
        let t = text::trim_vec(&lines[i]);
        let lower = text::lower_vec(&t);
        if text::vec_starts_with(&lower, &text::chars_of("pid:")) {
            let pieces = split_chars(&t, ':');
            proof {
                reveal_strlit("pid:");
                assert(lower@.take(4) == "pid:"@);
                assert(lower@.take(4)[3] == ':');
                assert(t@.len() >= 4 && lower@[3] == ':');
                assert(text::ascii_lower_char(t@[3]) == ':');
                assert(t@[3] == ':');
                lemma_split_has_second_piece(t@, ':', 3);
            }
            let value = text::trim_vec(&pieces[1]);
            proof {
                assert(views(pieces@)[1] == pieces@[1]@);
            }
            match parse_unsigned_text(&value, 4294967295u128) {
                Some(n) => {
                    pids.push(n as u32);
                },
                None => {
                    proof {
                        assert(pids@ =~= pids@ + Seq::<u32>::empty());
                    }
                },
            }
        } else {
            proof {
                assert(pids@ =~= pids@ + Seq::<u32>::empty());
            }
        }
        i = i + 1;
    }
    proof {
        assert(views(lines@).take(lines@.len() as int) =~= views(lines@));
    }
    pids
}

proof fn lemma_split_has_second_piece(s: Seq<char>, sep: char, k: int)
    requires
        0 <= k < s.len(),
        s[k] == sep,
    ensures
        split_on(s, sep).len() >= 2,
    decreases s.len(),
{
    lemma_split_on_nonempty(s.drop_last(), sep);
    if k < s.len() - 1 {
        lemma_split_has_second_piece(s.drop_last(), sep, k);
    }
}

/// The index of the first occurrence of `key` in `line`, if any.
pub open spec fn first_index(line: Seq<char>, key: Seq<char>) -> Option<int> {
    if text::contains(line, key) {
        Some(choose|i: int| text::first_occurrence(line, key, i))
    } else {
        None
    }
}

proof fn lemma_first_index(line: Seq<char>, key: Seq<char>, i: int)
    requires
        text::first_occurrence(line, key, i),
    ensures
        first_index(line, key) == Some(i),
{
    assert(text::occurs_at(line, key, i));
    let c = choose|c: int| text::first_occurrence(line, key, c);
    if c < i {
        assert(!text::occurs_at(line, key, c));
    }
    if c > i {
        assert(!text::occurs_at(line, key, i));
    }
}

/// What follows the first `key` in `line`.
pub open spec fn field_tail(line: Seq<char>, key: Seq<char>) -> Option<Seq<char>> {
    match first_index(line, key) {
        Some(i) => Some(line.skip(i + key.len())),
        None => None,
    }
}

fn field_tail_of(line: &Vec<char>, key: &str) -> (r: Option<Vec<char>>)
    ensures
        match r {
            Some(t) => field_tail(line@, key@) == Some(t@),
            None => field_tail(line@, key@) is None,
        },
{
    let k = text::chars_of(key);
    match text::find(line, &k) {
        Some(i) => {
            proof {
                lemma_first_index(line@, key@, i as int);
                assert(text::occurs_at(line@, k@, i as int));
                assert(i + k@.len() <= line@.len());
                assert(k@.len() == k.len());
                assert(line@.len() == line.len());
            }
            let start = i + k.len();
            let t = text::slice_vec(line, start, line.len());
            proof {
                assert(t@ =~= line@.skip(start as int));
            }
            Some(t)
        },
        None => None,
    }
}

/// `s` without trailing copies of `c` (`trim_end_matches`).
pub open spec fn strip_trailing(s: Seq<char>, c: char) -> Seq<char>
    decreases s.len(),
{
    if s.len() > 0 && s.last() == c { strip_trailing(s.drop_last(), c) } else { s }
}

pub fn strip_trailing_vec(v: &Vec<char>, c: char) -> (out: Vec<char>)
    ensures
        out@ == strip_trailing(v@, c),
{
    let mut n: usize = v.len();
    proof {
        assert(v@.take(v@.len() as int) =~= v@);
    }
    while n > 0 && v[n - 1] == c
        invariant
            n <= v@.len(),
            strip_trailing(v@, c) == strip_trailing(v@.take(n as int), c),
        decreases n,
    {
        proof {
            assert(v@.take(n as int).drop_last() =~= v@.take(n - 1));
        }
        n = n - 1;
    }
    proof {
        assert(v@.subrange(0, n as int) =~= v@.take(n as int));
    }
    text::slice_vec(v, 0, n)
}

/// The first word after `key`, trailing commas dropped (empty when no word follows).
pub open spec fn field_word(line: Seq<char>, key: Seq<char>) -> Option<Seq<char>> {
    match field_tail(line, key) {
        Some(t) => {
            let ws = ws_words(t);
            Some(if ws.len() > 0 { strip_trailing(ws[0], ',') } else { Seq::empty() })
        },
        None => None,
    }
}

fn field_word_of(line: &Vec<char>, key: &str) -> (r: Option<Vec<char>>)
    ensures
        match r {
            Some(w) => field_word(line@, key@) == Some(w@),
            None => field_word(line@, key@) is None,
        },
{
    match field_tail_of(line, key) {
        Some(t) => {
            let ws = ws_words_of(&t);
            if ws.len() > 0 {
                proof {
                    assert(views(ws@)[0] == ws@[0]@);
                }
                Some(strip_trailing_vec(&ws[0], ','))
            } else {
                Some(Vec::new())
            }
        },
        None => None,
    }
}

/// The number after `key` in a log line.
pub open spec fn u128_field(line: Seq<char>, key: Seq<char>) -> Option<int> {
    match field_word(line, key) {
        Some(w) => parse_unsigned(w, u128::MAX as int),
        None => None,
    }
}

pub fn parse_u128_field(line: &str, key: &str) -> (r: Option<u128>)
    ensures
        match r {
            Some(n) => u128_field(line@, key@) == Some(n as int),
            None => u128_field(line@, key@) is None,
        },
{
    let l = text::chars_of(line);
    match field_word_of(&l, key) {
        Some(w) => parse_unsigned_text(&w, u128::MAX),
        None => None,
    }
}

/// The `true` or `false` after `key` in a log line.
pub open spec fn bool_field(line: Seq<char>, key: Seq<char>) -> Option<bool> {
    match field_word(line, key) {
        Some(w) => if w == "true"@ { Some(true) } else if w == "false"@ { Some(false) } else { None },
        None => None,
    }
}

pub fn parse_bool_field(line: &str, key: &str) -> (r: Option<bool>)
    ensures
        r == bool_field(line@, key@),
{
    let l = text::chars_of(line);
    match field_word_of(&l, key) {
        Some(w) => if text::vec_eq_str(&w, "true") {
            Some(true)
        } else if text::vec_eq_str(&w, "false") {
            Some(false)
        } else {
            None
        },
        None => None,
    }
}

/// The double-quoted text right after `key` in a log line.
pub open spec fn quoted_field(line: Seq<char>, key: Seq<char>) -> Option<Seq<char>> {
    match field_tail(line, key) {
        Some(t) => if t.len() > 0 && t[0] == '"' {
            match first_index(t.drop_first(), seq!['"']) {
                Some(e) => Some(t.drop_first().take(e)),
                None => None,
            }
        } else {
            None
        },
        None => None,
    }
}

pub fn parse_quoted_field(line: &str, key: &str) -> (r: Option<String>)
    ensures
        opt_string(r) == quoted_field(line@, key@),
{
    let l = text::chars_of(line);
    match field_tail_of(&l, key) {
        Some(t) => {
            if t.len() == 0 || t[0] != '"' {
                return None;
            }
            let rest = text::slice_vec(&t, 1, t.len());
            proof {
                assert(rest@ =~= t@.drop_first());
            }
            let mut q: Vec<char> = Vec::new();
            q.push('"');
            match text::find(&rest, &q) {
                Some(e) => {
                    proof {
                        assert(q@ =~= seq!['"']);
                        lemma_first_index(rest@, q@, e as int);
                        assert(rest@.subrange(0, e as int) =~= rest@.take(e as int));
                    }
                    Some(text::string_of_range(&rest, 0, e))
                },
                None => {
                    proof {
                        assert(q@ =~= seq!['"']);
                    }
                    None
                },
            }
        },
        None => None,
    }
}

/// One query timing read back from the log.
#[derive(Debug, Clone, Copy, PartialEq, Eq, Structural)]
pub struct QueryProfileSample {
    pub total_ms: u128,
    pub indexed_ms: u128,
    pub query_len: usize,
    pub short_app_bias: bool,
}

/// The sample a `query_profile` log line records; lines without a total are skipped.
pub open spec fn sample_of_line(line: Seq<char>) -> Option<QueryProfileSample> {
    if !text::contains(line, "[swiftfind-core] query_profile "@) {
        None
    } else {
        match u128_field(line, "total_ms="@) {
            Some(total) => Some(
                QueryProfileSample {
                    total_ms: total as u128,
                    indexed_ms: match u128_field(line, "indexed_ms="@) {
                        Some(n) => n as u128,
                        None => 0,
                    },
                    query_len: match quoted_field(line, "q="@) {
                        Some(q) => q.len() as usize,
                        None => 0,
                    },
                    short_app_bias: match bool_field(line, "short_app_bias="@) {
                        Some(b) => b,
                        None => false,
                    },
                },
            ),
            None => None,
        }
    }
}

pub open spec fn samples_of_lines(lines: Seq<Seq<char>>) -> Seq<QueryProfileSample>
    decreases lines.len(),
{
    if lines.len() == 0 {
        Seq::empty()
    } else {
        samples_of_lines(lines.drop_last()) + match sample_of_line(lines.last()) {
            Some(x) => seq![x],
            None => Seq::empty(),
        }
    }
}

fn sample_of(line: &Vec<char>) -> (r: Option<QueryProfileSample>)
    ensures
        r == sample_of_line(line@),
{
    if !text::vec_contains(line, &text::chars_of("[swiftfind-core] query_profile ")) {
        return None;
    }
    let s = text::string_of(line);
    match parse_u128_field(s.as_str(), "total_ms=") {
        Some(total) => {
            let indexed_ms = match parse_u128_field(s.as_str(), "indexed_ms=") {
                Some(n) => n,
                None => 0,
            };
            let query_len = match parse_quoted_field(s.as_str(), "q=") {
                Some(q) => text::chars_of(q.as_str()).len(),
                None => 0,
            };
            let short_app_bias = match parse_bool_field(s.as_str(), "short_app_bias=") {
                Some(b) => b,
                None => false,
            };
            Some(QueryProfileSample { total_ms: total, indexed_ms, query_len, short_app_bias })
        },
        None => None,
    }
}

fn samples_from_lines(lines: &Vec<Vec<char>>, from: usize) -> (out: Vec<QueryProfileSample>)
    requires
        from <= lines@.len(),
    ensures
        out@ == samples_of_lines(views(lines@).skip(from as int)),
{
    let mut out: Vec<QueryProfileSample> = Vec::new();
    let mut i: usize = from;
    while i < lines.len()
        invariant
            from <= i <= lines@.len(),
            out@ == samples_of_lines(views(lines@).subrange(from as int, i as int)),
        decreases lines@.len() - i,
    {
        proof {
            let t = views(lines@).subrange(from as int, (i + 1) as int);
            assert(t.drop_last() =~= views(lines@).subrange(from as int, i as int));
            assert(t.last() == lines@[i as int]@);
        }
        match sample_of(&lines[i]) {
            Some(x) => {
                out.push(x);
            },
            None => {
                proof {
                    assert(out@ =~= out@ + Seq::<QueryProfileSample>::empty());
                }
            },
        }
        i = i + 1;
    }
    proof {
        assert(views(lines@).subrange(from as int, lines@.len() as int) =~= views(lines@).skip(from as int));
    }
    out
}

/// Every `query_profile` sample in the log.
pub fn parse_query_profile_samples(content: &str) -> (out: Vec<QueryProfileSample>)
    ensures
        out@ == samples_of_lines(text_lines(content@)),
{
    let lines = lines_of(content);
    proof {
        assert(views(lines@).skip(0) =~= views(lines@));
    }
    samples_from_lines(&lines, 0)
}

/// The samples since the runtime last started (the whole log if it never did).
pub open spec fn recent_samples(content: Seq<char>) -> Seq<QueryProfileSample> {
    let ls = text_lines(content);
    let start = match last_line_with(ls, "[swiftfind-core] startup mode="@) {
        Some(i) => i,
        None => 0,
    };
    if ls.len() == 0 {
        Seq::empty()
    } else {
        samples_of_lines(text_lines(join(ls.skip(start), "\n"@)))
    }
}

pub fn parse_recent_query_profile_samples(content: &str) -> (out: Vec<QueryProfileSample>)
    ensures
        out@ == recent_samples(content@),
{
    let lines = lines_of(content);
    if lines.len() == 0 {
        return Vec::new();
    }
    let token = text::chars_of("[swiftfind-core] startup mode=");
    let start = match last_line_index(&lines, &token) {
        Some(i) => i,
        None => 0,
    };
    let mut tail: Vec<Vec<char>> = Vec::new();
    let mut i: usize = start;
    while i < lines.len()
        invariant
            start <= i <= lines@.len(),
            views(tail@) == views(lines@).subrange(start as int, i as int),
        decreases lines@.len() - i,
    {
        let l = text::slice_vec(&lines[i], 0, lines[i].len());
        let ghost before = views(tail@);
        proof {
            assert(lines@[i as int]@.subrange(0, lines@[i as int]@.len() as int) =~= lines@[i as int]@);
        }
        tail.push(l);
        proof {
            assert(views(tail@) =~= before.push(l@));
            assert(views(lines@).subrange(start as int, (i + 1) as int) =~= views(lines@).subrange(start as int, i as int).push(lines@[i as int]@));
        }
        i = i + 1;
    }
    proof {
        assert(views(lines@).subrange(start as int, lines@.len() as int) =~= views(lines@).skip(start as int));
    }
    let joined = crate::query_dsl::join_chars(&tail, '\n');
    proof {
        assert(seq!['\n'] =~= "\n"@) by {
            reveal_strlit("\n");
        }
    }
    let js = text::string_of(&joined);
    parse_query_profile_samples(js.as_str())
}

} // verus!
