//! One overlay query, from the parsed text to ranked results: what is decided
//! before the index is asked (or whether it needs asking at all), and how the
//! index's answer is merged with plugins, actions and the clipboard history.
use vstd::prelude::*;

use crate::action_registry::{action_search_result, search_actions};
use crate::clipboard_history::{history_search, search_history, ClipboardEntry};
use crate::config::{Config, SearchMode};
use crate::model::{normalize, SearchItem};
use crate::overlay_session::{
    cache_key, final_query_cache_key, first_key_index, keep_last, law_stored_results_read_back, stores_entry,
    unique_keys, OverlaySearchSession,
};
use crate::plugin_sdk::PluginRegistry;
use crate::query_dsl::{opt_string, string_groups, strings, ParsedQuery};
use crate::query_profile::percentile;
use crate::runtime::{
    adaptive_indexed_seed_limit, adaptive_seed_limit, build_search_filter, can_use_indexed_prefix_cache,
    candidate_limit, candidate_limit_for_query, filter_for_query, indexed_seed_limit,
    is_prefix_cache_eligible_query, non_searchable, prefix_cache_eligible, prefix_cache_usable,
    resolved_mode, seed_limit, short_query_app_mode, should_skip_non_searchable_query,
    should_use_short_query_app_mode, IndexedPrefixCache, INDEXED_PREFIX_CACHE_MAX_SEED_LIMIT,
};
use crate::search::{ranked_results, search_with_filter_at, FileTimes, SearchFilter};
use crate::text;

verus! {

/// The clipboard history contributes at most this many candidates.
pub const CLIPBOARD_CANDIDATE_LIMIT: usize = 120;

/// Everything decided about a query before the index is searched.
pub struct OverlayQueryPlan {
    pub filter: SearchFilter,
    pub indexed_filter: SearchFilter,
    pub text_query: String,
    pub normalized_query: String,
    pub cache_key: String,
    pub result_limit: usize,
    pub candidate_limit: usize,
    pub indexed_seed_limit: usize,
    pub short_query_app_bias: bool,
    pub prefix_cache_eligible: bool,
}

/// How a query starts: it is answered at once, or the index has to be searched.
pub enum OverlayQueryStart {
    Done(Vec<SearchItem>),
    Search(OverlayQueryPlan),
}

/// The free text a query searches for, trimmed.
pub open spec fn query_text(pq: ParsedQuery) -> Seq<char> {
    text::trim(pq.free_text@)
}

/// The normalized free text.
pub open spec fn query_norm(pq: ParsedQuery) -> Seq<char> {
    normalize(query_text(pq))
}

/// A byte length as a `usize` argument (saturating; real texts are far shorter).
pub open spec fn size_arg(b: int) -> int {
    if b > usize::MAX { usize::MAX as int } else { b }
}

/// Two filters agree in every field but the mode.
pub open spec fn same_filter_but_mode(a: SearchFilter, b: SearchFilter) -> bool {
    &&& opt_string(a.kind_filter) == opt_string(b.kind_filter)
    &&& opt_string(a.extension_filter) == opt_string(b.extension_filter)
    &&& a.include_files == b.include_files
    &&& a.include_folders == b.include_folders
    &&& string_groups(a.include_groups@) == string_groups(b.include_groups@)
    &&& strings(a.exclude_terms@) == strings(b.exclude_terms@)
    &&& a.modified_within == b.modified_within
    &&& a.created_within == b.created_within
}

/// The cache key of the query's final results.
pub open spec fn planned_cache_key(cfg: Config, pq: ParsedQuery, f: SearchFilter, result_limit: int) -> Seq<char> {
    cache_key(pq, f, query_norm(pq), result_limit as nat)
}

/// How many candidates each source fetches for the query.
pub open spec fn planned_candidates(cfg: Config, pq: ParsedQuery, result_limit: int) -> int {
    candidate_limit(result_limit, resolved_mode(cfg, pq), text::byte_len(query_norm(pq)), pq.command_mode)
}

/// `plan` is what `begin_overlay_query` decides for the query when the index
/// has to be searched; `samples` are the session's latency samples.
pub open spec fn plans_query(plan: OverlayQueryPlan, cfg: Config, pq: ParsedQuery, result_limit: int, samples: Seq<u128>) -> bool {
    let nq = query_norm(pq);
    let cl = planned_candidates(cfg, pq, result_limit);
    let bias = short_query_app_mode(pq, plan.filter, nq);
    &&& filter_for_query(plan.filter, cfg, pq)
    &&& plan.text_query@ == query_text(pq)
    &&& plan.normalized_query@ == nq
    &&& plan.cache_key@ == planned_cache_key(cfg, pq, plan.filter, result_limit)
    &&& plan.result_limit == result_limit
    &&& plan.candidate_limit == cl
    &&& plan.indexed_seed_limit == adaptive_seed_limit(
        samples.len() as int,
        percentile(samples, 95) as int,
        cl,
        size_arg(text::byte_len(nq)),
        seed_limit(cl, size_arg(text::byte_len(nq))),
    )
    &&& plan.short_query_app_bias == bias
    &&& same_filter_but_mode(plan.indexed_filter, plan.filter)
    &&& plan.indexed_filter.mode == (if bias { SearchMode::Apps } else { plan.filter.mode })
    &&& plan.prefix_cache_eligible == prefix_cache_eligible(pq, bias)
}

/// Two sessions hold the same caches.
pub open spec fn same_session(a: OverlaySearchSession, b: OverlaySearchSession) -> bool {
    &&& a.indexed_prefix_cache == b.indexed_prefix_cache
    &&& a.final_query_cache@ == b.final_query_cache@
    &&& a.indexed_latency_ms@ == b.indexed_latency_ms@
}

/// The query has something to search for and a positive limit, and no final
/// results are cached for it.
pub open spec fn needs_index(cfg: Config, pq: ParsedQuery, result_limit: int, session: OverlaySearchSession, f: SearchFilter) -> bool {
    &&& result_limit > 0
    &&& !non_searchable(pq, query_norm(pq))
    &&& first_key_index(session.final_query_cache@, planned_cache_key(cfg, pq, f, result_limit)) is None
}

fn copy_strings(v: &Vec<String>) -> (out: Vec<String>)
    ensures
        strings(out@) == strings(v@),
{
    let mut out: Vec<String> = Vec::new();
    let mut i: usize = 0;
    while i < v.len()
        invariant
            i <= v@.len(),
            strings(out@) == strings(v@.take(i as int)),
        decreases v@.len() - i,
    {
        out.push(text::owned(v[i].as_str()));
        proof {
            assert(strings(v@.take((i + 1) as int)) =~= strings(v@.take(i as int)).push(v@[i as int]@));
            assert(strings(out@) =~= strings(v@.take(i as int)).push(v@[i as int]@));
        }
        i = i + 1;
    }
    proof {
        assert(v@.take(v@.len() as int) =~= v@);
    }
    out
}

fn copy_groups(v: &Vec<Vec<String>>) -> (out: Vec<Vec<String>>)
    ensures
        string_groups(out@) == string_groups(v@),
{
    let mut out: Vec<Vec<String>> = Vec::new();
    let mut i: usize = 0;
    while i < v.len()
        invariant
            i <= v@.len(),
            string_groups(out@) == string_groups(v@.take(i as int)),
        decreases v@.len() - i,
    {
        let g = copy_strings(&v[i]);
        out.push(g);
        proof {
            assert(string_groups(v@.take((i + 1) as int)) =~= string_groups(v@.take(i as int)).push(
                strings(v@[i as int]@),
            ));
            assert(string_groups(out@) =~= string_groups(v@.take(i as int)).push(strings(v@[i as int]@)));
        }
        i = i + 1;
    }
    proof {
        assert(v@.take(v@.len() as int) =~= v@);
    }
    out
}

fn copy_opt(o: &Option<String>) -> (out: Option<String>)
    ensures
        opt_string(out) == opt_string(*o),
{
    match o {
        Some(s) => Some(text::owned(s.as_str())),
        None => None,
    }
}

/// A copy of `f` searching in `mode`.
fn filter_in_mode(f: &SearchFilter, mode: SearchMode) -> (out: SearchFilter)
    ensures
        same_filter_but_mode(out, *f),
        out.mode == mode,
{
    SearchFilter {
        mode,
        kind_filter: copy_opt(&f.kind_filter),
        extension_filter: copy_opt(&f.extension_filter),
        include_files: f.include_files,
        include_folders: f.include_folders,
        include_groups: copy_groups(&f.include_groups),
        exclude_terms: copy_strings(&f.exclude_terms),
        modified_within: f.modified_within,
        created_within: f.created_within,
    }
}

/// What `begin_overlay_query` does: `before` is the session it is given,
/// `after` the session it leaves and `r` its answer.
pub open spec fn begins(
    cfg: Config,
    pq: ParsedQuery,
    result_limit: int,
    before: OverlaySearchSession,
    after: OverlaySearchSession,
    r: OverlayQueryStart,
) -> bool {
    &&& result_limit == 0 ==> (r matches OverlayQueryStart::Done(v) && v@.len() == 0 && same_session(after, before))
    &&& result_limit > 0 && non_searchable(pq, query_norm(pq)) ==> (r matches OverlayQueryStart::Done(v)
        && v@.len() == 0 && after.indexed_prefix_cache is None && after.final_query_cache@.len() == 0
        && after.indexed_latency_ms@.len() == 0)
    &&& result_limit > 0 && !non_searchable(pq, query_norm(pq)) ==> match r {
        OverlayQueryStart::Done(v) => exists|f: SearchFilter|
            filter_for_query(f, cfg, pq) && (first_key_index(
                before.final_query_cache@,
                planned_cache_key(cfg, pq, f, result_limit),
            ) matches Some(i) && v@ == before.final_query_cache@[i].1@
                && after.final_query_cache@ == before.final_query_cache@.remove(i).push(
                before.final_query_cache@[i],
            ) && after.indexed_prefix_cache == before.indexed_prefix_cache
                && after.indexed_latency_ms == before.indexed_latency_ms),
        OverlayQueryStart::Search(plan) => plans_query(
            plan,
            cfg,
            pq,
            result_limit,
            before.indexed_latency_ms@,
        ) && needs_index(cfg, pq, result_limit, before, plan.filter)
            && same_session(after, before),
    }
}

/// Starts an overlay query. A zero limit finds nothing; a query with nothing
/// to search for finds nothing and clears the session's caches; a query whose
/// final results are cached gets them (marked as just used); any other query
/// gets its plan, and the index has to be searched.
pub fn begin_overlay_query(
    cfg: &Config,
    parsed_query: &ParsedQuery,
    result_limit: usize,
    session: &mut OverlaySearchSession,
) -> (r: OverlayQueryStart)
    requires
        old(session).indexed_latency_ms@.len() >= 6 && result_limit > 0 ==> planned_candidates(
            *cfg,
            *parsed_query,
            result_limit as int,
        ) <= INDEXED_PREFIX_CACHE_MAX_SEED_LIMIT,
    ensures
        begins(*cfg, *parsed_query, result_limit as int, *old(session), *final(session), r),
{
    if result_limit == 0 {
        return OverlayQueryStart::Done(Vec::new());
    }
    let filter = build_search_filter(cfg, parsed_query);
    let text_query = text::trim_str(parsed_query.free_text.as_str());
    let normalized_query = crate::model::normalize_for_search(text_query.as_str());
    if should_skip_non_searchable_query(parsed_query, normalized_query.as_str()) {
        session.clear();
        return OverlayQueryStart::Done(Vec::new());
    }
    let key = final_query_cache_key(parsed_query, &filter, normalized_query.as_str(), result_limit);
    match session.cached_final_query_results(key.as_str()) {
        Some(cached) => {
            proof {
                assert(filter_for_query(filter, *cfg, *parsed_query));
            }
            return OverlayQueryStart::Done(cached);
        },
        None => {},
    }
    let candidate_limit = candidate_limit_for_query(
        result_limit,
        &filter,
        normalized_query.as_str(),
        parsed_query.command_mode,
    );
    let nq = text::chars_of(normalized_query.as_str());
    let nq_bytes = text::byte_len_of(&nq);
    proof {
        text::lemma_byte_len_bounds(nq@);
    }
    let nq_len: usize = if nq_bytes > usize::MAX as u128 { usize::MAX } else { nq_bytes as usize };
    let base_seed_limit = indexed_seed_limit(candidate_limit, nq_len);
    let seed = adaptive_indexed_seed_limit(session, candidate_limit, nq_len, base_seed_limit);
    let bias = should_use_short_query_app_mode(parsed_query, &filter, normalized_query.as_str());
    let indexed_filter = filter_in_mode(&filter, if bias { SearchMode::Apps } else { filter.mode });
    let eligible = is_prefix_cache_eligible_query(parsed_query, bias);
    OverlayQueryStart::Search(
        OverlayQueryPlan {
            filter,
            indexed_filter,
            text_query,
            normalized_query,
            cache_key: key,
            result_limit,
            candidate_limit,
            indexed_seed_limit: seed,
            short_query_app_bias: bias,
            prefix_cache_eligible: eligible,
        },
    )
}

/// The indexed seed served from the session's prefix cache, when the cache
/// can serve `plan`: the cached seed items ranked for the query at `now`.
pub fn cached_indexed_seed(plan: &OverlayQueryPlan, session: &OverlaySearchSession, now: i64) -> (r: Option<Vec<SearchItem>>)
    ensures
        match session.indexed_prefix_cache {
            Some(c) => if prefix_cache_usable(c, plan.prefix_cache_eligible, plan.normalized_query@, plan.indexed_filter) {
                r matches Some(v) && ranked_results(
                    c.seed_items@,
                    plan.text_query@,
                    plan.indexed_seed_limit as int,
                    plan.indexed_filter,
                    Seq::empty(),
                    now as int,
                    v@,
                )
            } else {
                r is None
            },
            None => r is None,
        },
{
    match &session.indexed_prefix_cache {
        Some(cache) => {
            if can_use_indexed_prefix_cache(
                cache,
                plan.prefix_cache_eligible,
                plan.normalized_query.as_str(),
                &plan.indexed_filter,
            ) {
                let times: Vec<Option<FileTimes>> = Vec::new();
                let v = search_with_filter_at(
                    cache.seed_items.as_slice(),
                    plan.text_query.as_str(),
                    plan.indexed_seed_limit,
                    &plan.indexed_filter,
                    times.as_slice(),
                    now,
                );
                proof {
                    assert(times@ =~= Seq::<Option<FileTimes>>::empty());
                }
                Some(v)
            } else {
                None
            }
        },
        None => None,
    }
}

/// The filter plugin actions are searched with: actions only, nothing else narrowed.
pub open spec fn is_actions_filter(f: SearchFilter) -> bool {
    &&& f.mode == SearchMode::Actions
    &&& f.kind_filter is None
    &&& f.extension_filter is None
    &&& f.include_files
    &&& f.include_folders
    &&& f.include_groups@.len() == 0
    &&& f.exclude_terms@.len() == 0
    &&& f.modified_within is None
    &&& f.created_within is None
}

/// The action results of a query at `now`: the built-in actions that match
/// it, then (when plugins add actions) the plugin actions ranked for it, all
/// ranked together under the query's filter.
pub open spec fn action_hits(plugins: PluginRegistry, plan: OverlayQueryPlan, now: int, out: Seq<SearchItem>) -> bool {
    let cl = plan.candidate_limit as int;
    exists|builtin: Seq<SearchItem>, extra: Seq<SearchItem>|
        #![trigger action_search_result(plan.text_query@, cl, builtin), ranked_results(builtin + extra, plan.text_query@, cl, plan.filter, Seq::empty(), now, out)]
        action_search_result(plan.text_query@, cl, builtin) && (plugins.action_items@.len() == 0 ==> extra.len() == 0)
            && (plugins.action_items@.len() > 0 ==> exists|af: SearchFilter|
            is_actions_filter(af) && ranked_results(plugins.action_items@, plan.text_query@, cl, af, Seq::empty(), now, extra))
            && ranked_results(builtin + extra, plan.text_query@, cl, plan.filter, Seq::empty(), now, out)
}

/// `merged` is made of the first seed items, then the plugin items `p`, the
/// actions `a` and the clipboard results `c` of a query at `now`; with the
/// query biased to apps, `p` and `c` are empty and the clipboard history is
/// left alone, else `p` ranks the plugin items for the query and `c` comes
/// from a clipboard search that took the history from `before` to `after`.
pub open spec fn gathered_from(
    plan: OverlayQueryPlan,
    seeds: Seq<SearchItem>,
    plugins: PluginRegistry,
    cfg: Config,
    before: Seq<ClipboardEntry>,
    after: Seq<ClipboardEntry>,
    now: int,
    merged: Seq<SearchItem>,
    p: Seq<SearchItem>,
    a: Seq<SearchItem>,
    c: Seq<SearchItem>,
) -> bool {
    let cl = plan.candidate_limit as int;
    let head = if seeds.len() > cl { seeds.take(cl) } else { seeds };
    &&& merged == head + p + a + c
    &&& action_hits(plugins, plan, now, a)
    &&& plan.short_query_app_bias ==> p.len() == 0 && c.len() == 0 && after == before
    &&& !plan.short_query_app_bias ==> ranked_results(
        plugins.provider_items@,
        plan.text_query@,
        cl,
        plan.filter,
        Seq::empty(),
        now,
        p,
    ) && history_search(
        cfg,
        plan.text_query@,
        plan.filter,
        if cl <= CLIPBOARD_CANDIDATE_LIMIT { cl } else { CLIPBOARD_CANDIDATE_LIMIT as int },
        before,
        after,
        now,
        c,
    )
}

/// `merged` gathers the candidates of a query at `now` from every source.
pub open spec fn gathers(
    plan: OverlayQueryPlan,
    seeds: Seq<SearchItem>,
    plugins: PluginRegistry,
    cfg: Config,
    before: Seq<ClipboardEntry>,
    after: Seq<ClipboardEntry>,
    now: int,
    merged: Seq<SearchItem>,
) -> bool {
    exists|p: Seq<SearchItem>, a: Seq<SearchItem>, c: Seq<SearchItem>|
        #[trigger] gathered_from(plan, seeds, plugins, cfg, before, after, now, merged, p, a, c)
}

fn copy_prefix(items: &Vec<SearchItem>, n: usize) -> (out: Vec<SearchItem>)
    ensures
        out@ == (if items@.len() > n { items@.take(n as int) } else { items@ }),
{
    let m = if items.len() > n { n } else { items.len() };
    let mut out: Vec<SearchItem> = Vec::new();
    let mut i: usize = 0;
    while i < m
        invariant
            i <= m <= items@.len(),
            out@ == items@.take(i as int),
        decreases m - i,
    {
        out.push(items[i].clone());
        proof {
            assert(items@.take((i + 1) as int) =~= items@.take(i as int).push(items@[i as int]));
        }
        i = i + 1;
    }
    proof {
        if items@.len() <= n {
            assert(items@.take(m as int) =~= items@);
        }
    }
    out
}

fn append_items(out: &mut Vec<SearchItem>, items: Vec<SearchItem>)
    ensures
        final(out)@ == old(out)@ + items@,
{
    let mut i: usize = 0;
    while i < items.len()
        invariant
            i <= items@.len(),
            out@ == old(out)@ + items@.take(i as int),
        decreases items@.len() - i,
    {
        out.push(items[i].clone());
        proof {
            assert(items@.take((i + 1) as int) =~= items@.take(i as int).push(items@[i as int]));
        }
        i = i + 1;
    }
    proof {
        assert(items@.take(items@.len() as int) =~= items@);
    }
}

/// The session that `finish_overlay_query` leaves: the latency sample is
/// recorded unless the prefix cache served the seed; the seed becomes the
/// prefix cache when the query may use one, else every cache is cleared; and
/// non-empty results are kept under the query's cache key.
pub open spec fn session_after_finish(
    plan: OverlayQueryPlan,
    before: OverlaySearchSession,
    after: OverlaySearchSession,
    seeds: Seq<SearchItem>,
    from_prefix_cache: bool,
    indexed_ms: u128,
    out: Seq<SearchItem>,
) -> bool {
    let recorded = if from_prefix_cache {
        before.indexed_latency_ms@
    } else {
        keep_last(before.indexed_latency_ms@.push(indexed_ms), 24)
    };
    if plan.prefix_cache_eligible && plan.normalized_query@.len() > 0 {
        &&& after.indexed_prefix_cache matches Some(c) && c.normalized_query@ == plan.normalized_query@
            && c.indexed_filter == plan.indexed_filter && c.seed_items@ == seeds
        &&& after.indexed_latency_ms@ == recorded
        &&& out.len() > 0 ==> stores_entry(before.final_query_cache@, after.final_query_cache@, plan.cache_key@, out)
        &&& out.len() == 0 ==> after.final_query_cache@ == before.final_query_cache@
    } else {
        &&& after.indexed_prefix_cache is None
        &&& after.indexed_latency_ms@.len() == 0
        &&& out.len() > 0 ==> stores_entry(Seq::empty(), after.final_query_cache@, plan.cache_key@, out)
        &&& out.len() == 0 ==> after.final_query_cache@.len() == 0
    }
}

/// Finishes a planned query with the indexed seed that the index (or the
/// prefix cache) gave, taking `indexed_ms` to get. The sample is recorded
/// unless the prefix cache served it; the seed becomes the prefix cache when
/// the query may use one, and otherwise every session cache is cleared. The
/// candidates are gathered from all sources, ranked, kept as the query's
/// final results, and returned.
pub fn finish_overlay_query(
    plan: OverlayQueryPlan,
    session: &mut OverlaySearchSession,
    seeds: Vec<SearchItem>,
    from_prefix_cache: bool,
    indexed_ms: u128,
    plugins: &PluginRegistry,
    cfg: &Config,
    entries: &mut Vec<ClipboardEntry>,
    now: i64,
) -> (out: Vec<SearchItem>)
    ensures
        exists|merged: Seq<SearchItem>|
            gathers(plan, seeds@, *plugins, *cfg, old(entries)@, final(entries)@, now as int, merged)
                && ranked_results(
                merged,
                plan.text_query@,
                plan.result_limit as int,
                plan.filter,
                Seq::empty(),
                now as int,
                out@,
            ),
        session_after_finish(plan, *old(session), *final(session), seeds@, from_prefix_cache, indexed_ms, out@),
{
    let ghost plan_view = plan;
    let ghost seeds_v = seeds@;
    let ghost session_before = *session;
    let OverlayQueryPlan {
        filter,
        indexed_filter,
        text_query,
        normalized_query,
        cache_key,
        result_limit,
        candidate_limit,
        indexed_seed_limit: _,
        short_query_app_bias,
        prefix_cache_eligible,
    } = plan;
    if !from_prefix_cache {
        session.record_indexed_latency_sample(indexed_ms);
    }
    let mut merged = copy_prefix(&seeds, candidate_limit);
    let ghost head = merged@;
    if prefix_cache_eligible && normalized_query.as_str().unicode_len() > 0 {
        let nq = text::owned(normalized_query.as_str());
        session.indexed_prefix_cache = Some(
            IndexedPrefixCache { normalized_query: nq, indexed_filter, seed_items: seeds },
        );
    } else {
        session.clear();
        proof {
            assert(session.final_query_cache@ =~= Seq::<(String, Vec<SearchItem>)>::empty());
        }
    }
    let ghost mid_cache = session.final_query_cache@;
    let ghost mid_latency = session.indexed_latency_ms@;
    let ghost mid_prefix = session.indexed_prefix_cache;
    let times: Vec<Option<FileTimes>> = Vec::new();
    proof {
        assert(times@ =~= Seq::<Option<FileTimes>>::empty());
    }
    let mut provider_results: Vec<SearchItem> = Vec::new();
    if !short_query_app_bias {
        provider_results = search_with_filter_at(
            plugins.provider_items.as_slice(),
            text_query.as_str(),
            candidate_limit,
            &filter,
            times.as_slice(),
            now,
        );
    }
    let ghost p = provider_results@;
    append_items(&mut merged, provider_results);
    let mut action_items = search_actions(text_query.as_str(), candidate_limit);
    let ghost builtin = action_items@;
    let mut plugin_actions: Vec<SearchItem> = Vec::new();
    let actions_filter = SearchFilter {
        mode: SearchMode::Actions,
        kind_filter: None,
        extension_filter: None,
        include_files: true,
        include_folders: true,
        include_groups: Vec::new(),
        exclude_terms: Vec::new(),
        modified_within: None,
        created_within: None,
    };
    if plugins.action_items.len() > 0 {
        plugin_actions = search_with_filter_at(
            plugins.action_items.as_slice(),
            text_query.as_str(),
            candidate_limit,
            &actions_filter,
            times.as_slice(),
            now,
        );
    }
    let ghost extra = plugin_actions@;
    append_items(&mut action_items, plugin_actions);
    let action_results = search_with_filter_at(
        action_items.as_slice(),
        text_query.as_str(),
        candidate_limit,
        &filter,
        times.as_slice(),
        now,
    );
    proof {
        assert(action_hits(*plugins, plan_view, now as int, action_results@)) by {
            assert(action_items@ == builtin + extra);
            if plugins.action_items@.len() > 0 {
                assert(is_actions_filter(actions_filter));
            }
        }
    }
    let ghost a = action_results@;
    append_items(&mut merged, action_results);
    let mut clipboard_results: Vec<SearchItem> = Vec::new();
    if !short_query_app_bias {
        let clip_limit = if candidate_limit <= CLIPBOARD_CANDIDATE_LIMIT { candidate_limit } else { CLIPBOARD_CANDIDATE_LIMIT };
        clipboard_results = search_history(cfg, text_query.as_str(), &filter, clip_limit, entries, now);
    }
    let ghost c = clipboard_results@;
    append_items(&mut merged, clipboard_results);
    proof {
        let cl = plan_view.candidate_limit as int;
        assert(head == (if seeds_v.len() > cl { seeds_v.take(cl) } else { seeds_v }));
        assert(merged@ == head + p + a + c);
        if short_query_app_bias {
            assert(p.len() == 0 && c.len() == 0 && entries@ == old(entries)@);
        }
        assert(action_hits(*plugins, plan_view, now as int, a));
        assert(gathered_from(plan_view, seeds_v, *plugins, *cfg, old(entries)@, entries@, now as int, merged@, p, a, c));
    }
    let ranked = search_with_filter_at(
        merged.as_slice(),
        text_query.as_str(),
        result_limit,
        &filter,
        times.as_slice(),
        now,
    );
    session.store_final_query_results(cache_key, ranked.as_slice());
    proof {
        assert(session.indexed_prefix_cache == mid_prefix);
        assert(session.indexed_latency_ms@ == mid_latency);
    }
    ranked
}

/// A repeated query is answered from the session: when a query had to search
/// the index and found results, asking the same query again gives those
/// results back at once, records no new latency sample, and keeps them cached.
pub proof fn law_repeated_query_served_from_cache(
    cfg: Config,
    pq: ParsedQuery,
    result_limit: int,
    start: OverlaySearchSession,
    planned: OverlaySearchSession,
    plan: OverlayQueryPlan,
    finished: OverlaySearchSession,
    seeds: Seq<SearchItem>,
    from_prefix_cache: bool,
    indexed_ms: u128,
    out: Seq<SearchItem>,
    again: OverlaySearchSession,
    r: OverlayQueryStart,
)
    requires
        0 <= result_limit <= usize::MAX,
        unique_keys(start.final_query_cache@),
        begins(cfg, pq, result_limit, start, planned, OverlayQueryStart::Search(plan)),
        session_after_finish(plan, planned, finished, seeds, from_prefix_cache, indexed_ms, out),
        out.len() > 0,
        begins(cfg, pq, result_limit, finished, again, r),
    ensures
        r matches OverlayQueryStart::Done(v) && v@ == out,
        again.indexed_latency_ms@ == finished.indexed_latency_ms@,
        again.final_query_cache@.len() > 0,
{
    let key = plan.cache_key@;
    let cache = finished.final_query_cache@;
    assert(result_limit > 0 && !non_searchable(pq, query_norm(pq)));
    assert(plans_query(plan, cfg, pq, result_limit, start.indexed_latency_ms@));
    assert(planned.final_query_cache@ == start.final_query_cache@);
    assert(key == planned_cache_key(cfg, pq, plan.filter, result_limit));
    if plan.prefix_cache_eligible && plan.normalized_query@.len() > 0 {
        law_stored_results_read_back(planned.final_query_cache@, cache, key, out);
    } else {
        law_stored_results_read_back(Seq::empty(), cache, key, out);
    }
    assert(first_key_index(cache, key) == Some(cache.len() - 1));
    match r {
        OverlayQueryStart::Done(v) => {
            let f = choose|f: SearchFilter|
                filter_for_query(f, cfg, pq) && (first_key_index(cache, planned_cache_key(cfg, pq, f, result_limit)) matches Some(
                    i,
                ) && v@ == cache[i].1@ && again.final_query_cache@ == cache.remove(i).push(cache[i])
                    && again.indexed_prefix_cache == finished.indexed_prefix_cache
                    && again.indexed_latency_ms == finished.indexed_latency_ms);
            assert(planned_cache_key(cfg, pq, f, result_limit) == key);
        },
        OverlayQueryStart::Search(plan2) => {
            assert(planned_cache_key(cfg, pq, plan2.filter, result_limit) == key);
        },
    }
}

} // verus!
