//! The overlay's per-session search caches: the latest indexed seed, the
//! final results of recent queries, and recent index latencies.
use vstd::prelude::*;

use crate::config::SearchMode;
use crate::model::SearchItem;
use crate::query_dsl::{join, opt_string, strings, string_groups, ParsedQuery, TimeFilterWindow};
use crate::runtime::IndexedPrefixCache;
use crate::search::{views, SearchFilter};
use crate::settings::{decimal, decimal_u64};
use crate::text;

verus! {

/// At most this many final query results are kept.
pub const FINAL_QUERY_CACHE_MAX_ENTRIES: usize = 32;

/// At most this many latency samples are kept.
pub const ADAPTIVE_INDEXED_LATENCY_WINDOW: usize = 24;

/// Search caches kept while the overlay stays open. Cached final results are
/// kept least recently used first, one entry per key.
#[derive(Debug)]
pub struct OverlaySearchSession {
    pub indexed_prefix_cache: Option<IndexedPrefixCache>,
    pub final_query_cache: Vec<(String, Vec<SearchItem>)>,
    pub indexed_latency_ms: Vec<u128>,
}

impl Default for OverlaySearchSession {
    fn default() -> (s: Self)
        ensures
            s.indexed_prefix_cache is None,
            s.final_query_cache@.len() == 0,
            s.indexed_latency_ms@.len() == 0,
    {
        OverlaySearchSession { indexed_prefix_cache: None, final_query_cache: Vec::new(), indexed_latency_ms: Vec::new() }
    }
}

/// The keys of the cached entries, in order.
pub open spec fn cache_keys(c: Seq<(String, Vec<SearchItem>)>) -> Seq<Seq<char>> {
    c.map_values(|e: (String, Vec<SearchItem>)| e.0@)
}

/// The position of the first entry for `key`.
pub open spec fn first_key_index(c: Seq<(String, Vec<SearchItem>)>, key: Seq<char>) -> Option<int>
    decreases c.len(),
{
    if c.len() == 0 {
        None
    } else if c[0].0@ == key {
        Some(0)
    } else {
        match first_key_index(c.drop_first(), key) {
            Some(i) => Some(i + 1),
            None => None,
        }
    }
}

fn find_key(cache: &Vec<(String, Vec<SearchItem>)>, key: &str) -> (r: Option<usize>)
    ensures
        match r {
            Some(i) => first_key_index(cache@, key@) == Some(i as int) && i < cache@.len(),
            None => first_key_index(cache@, key@) is None,
        },
{
    let mut i: usize = 0;
    proof {
        assert(cache@.skip(0) =~= cache@);
    }
    while i < cache.len()
        invariant
            i <= cache@.len(),
            first_key_index(cache@, key@) == match first_key_index(cache@.skip(i as int), key@) {
                Some(j) => Some(j + i),
                None => None::<int>,
            },
        decreases cache@.len() - i,
    {
        proof {
            assert(cache@.skip(i as int).drop_first() =~= cache@.skip(i + 1));
            assert(cache@.skip(i as int)[0] == cache@[i as int]);
        }
        if text::str_eq(cache[i].0.as_str(), key) {
            return Some(i);
        }
        i = i + 1;
    }
    None
}

/// The last `n` elements of `s` (all of them when it is shorter).
pub open spec fn keep_last<A>(s: Seq<A>, n: int) -> Seq<A> {
    if s.len() > n { s.skip(s.len() - n) } else { s }
}

/// `after` is `before` with the entry for `key` (if any) taken out, only the
/// latest 31 others kept, and `(key, results)` appended as the most recent.
pub open spec fn stores_entry(
    before: Seq<(String, Vec<SearchItem>)>,
    after: Seq<(String, Vec<SearchItem>)>,
    key: Seq<char>,
    results: Seq<SearchItem>,
) -> bool {
    let base = match first_key_index(before, key) {
        Some(i) => before.remove(i),
        None => before,
    };
    &&& after.len() == keep_last(base, 31).len() + 1
    &&& after.drop_last() == keep_last(base, 31)
    &&& after.last().0@ == key
    &&& after.last().1@ == results
}

/// No key occurs twice.
pub open spec fn unique_keys(c: Seq<(String, Vec<SearchItem>)>) -> bool {
    forall|i: int, j: int| 0 <= i < j < c.len() ==> (#[trigger] c[i]).0@ != (#[trigger] c[j]).0@
}

proof fn lemma_first_key_index(c: Seq<(String, Vec<SearchItem>)>, key: Seq<char>)
    ensures
        match first_key_index(c, key) {
            Some(i) => 0 <= i < c.len() && c[i].0@ == key && forall|k: int| 0 <= k < i ==> (#[trigger] c[k]).0@ != key,
            None => forall|k: int| 0 <= k < c.len() ==> (#[trigger] c[k]).0@ != key,
        },
    decreases c.len(),
{
    if c.len() > 0 {
        let d = c.drop_first();
        lemma_first_key_index(d, key);
        if c[0].0@ != key {
            match first_key_index(d, key) {
                Some(i) => {
                    assert forall|k: int| 0 <= k < i + 1 implies (#[trigger] c[k]).0@ != key by {
                        if k > 0 {
                            assert(c[k] == d[k - 1]);
                        }
                    }
                },
                None => {
                    assert forall|k: int| 0 <= k < c.len() implies (#[trigger] c[k]).0@ != key by {
                        if k > 0 {
                            assert(c[k] == d[k - 1]);
                        }
                    }
                },
            }
        }
    }
}

proof fn lemma_first_key_is_last(c: Seq<(String, Vec<SearchItem>)>, key: Seq<char>)
    requires
        c.len() > 0,
        c.last().0@ == key,
        forall|k: int| 0 <= k < c.len() - 1 ==> (#[trigger] c[k]).0@ != key,
    ensures
        first_key_index(c, key) == Some(c.len() - 1),
    decreases c.len(),
{
    if c.len() > 1 {
        let d = c.drop_first();
        assert forall|k: int| 0 <= k < d.len() - 1 implies (#[trigger] d[k]).0@ != key by {
            assert(d[k] == c[k + 1]);
        }
        lemma_first_key_is_last(d, key);
        assert(c[0].0@ != key);
    }
}

/// Storing results and then asking for the same key gives them back: the new
/// entry is the one entry for its key, and keys stay unique.
#[verifier::rlimit(60)]
#[verifier::spinoff_prover]
pub proof fn law_stored_results_read_back(
    before: Seq<(String, Vec<SearchItem>)>,
    after: Seq<(String, Vec<SearchItem>)>,
    key: Seq<char>,
    results: Seq<SearchItem>,
)
    requires
        unique_keys(before),
        stores_entry(before, after, key, results),
    ensures
        unique_keys(after),
        first_key_index(after, key) == Some(after.len() - 1),
        after[after.len() - 1].1@ == results,
{
    lemma_first_key_index(before, key);
    let base = match first_key_index(before, key) {
        Some(i) => before.remove(i),
        None => before,
    };
    assert(unique_keys(base) && forall|k: int| 0 <= k < base.len() ==> (#[trigger] base[k]).0@ != key) by {
        match first_key_index(before, key) {
            Some(i) => {
                assert forall|k: int| 0 <= k < base.len() implies (#[trigger] base[k]).0@ != key by {
                    if k < i {
                        assert(base[k] == before[k]);
                        assert(before[k].0@ != before[i].0@);
                    } else {
                        assert(base[k] == before[k + 1]);
                        assert(before[i].0@ != before[k + 1].0@);
                    }
                }
                assert forall|a: int, b: int| 0 <= a < b < base.len() implies (#[trigger] base[a]).0@ != (#[trigger] base[b]).0@ by {
                    let a2 = if a < i { a } else { a + 1 };
                    let b2 = if b < i { b } else { b + 1 };
                    assert(base[a] == before[a2]);
                    assert(base[b] == before[b2]);
                    assert(before[a2].0@ != before[b2].0@);
                }
            },
            None => {},
        }
    }
    let kept = keep_last(base, 31);
    let off = base.len() - kept.len();
    assert(forall|k: int| 0 <= k < kept.len() ==> #[trigger] kept[k] == base[k + off]);
    assert(after.drop_last() == kept);
    assert forall|k: int| 0 <= k < after.len() - 1 implies (#[trigger] after[k]).0@ != key by {
        assert(after[k] == kept[k]);
        assert(kept[k] == base[k + off]);
    }
    assert forall|a: int, b: int| 0 <= a < b < after.len() implies (#[trigger] after[a]).0@ != (#[trigger] after[b]).0@ by {
        assert(after[a] == kept[a]);
        assert(kept[a] == base[a + off]);
        if b < after.len() - 1 {
            assert(after[b] == kept[b]);
            assert(kept[b] == base[b + off]);
        } else {
            assert(after[b] == after.last());
        }
    }
    lemma_first_key_is_last(after, key);
}

pub(crate) fn copy_items(items: &Vec<SearchItem>) -> (out: Vec<SearchItem>)
    ensures
        out@ == items@,
{
    let mut out: Vec<SearchItem> = Vec::new();
    let mut i: usize = 0;
    while i < items.len()
        invariant
            i <= items@.len(),
            out@ == items@.take(i as int),
        decreases items@.len() - i,
    {
        out.push(items[i].clone());
        proof {
            assert(items@.take((i + 1) as int) =~= items@.take(i as int).push(items@[i as int]));
        }
        i = i + 1;
    }
    proof {
        assert(items@.take(items@.len() as int) =~= items@);
    }
    out
}

impl OverlaySearchSession {
    /// Forgets every cache.
    pub fn clear(&mut self)
        ensures
            final(self).indexed_prefix_cache is None,
            final(self).final_query_cache@.len() == 0,
            final(self).indexed_latency_ms@.len() == 0,
    {
        self.indexed_prefix_cache = None;
        self.final_query_cache.clear();
        self.indexed_latency_ms.clear();
    }

    /// The cached results for `key`, marking them as just used.
    pub fn cached_final_query_results(&mut self, key: &str) -> (r: Option<Vec<SearchItem>>)
        ensures
            final(self).indexed_prefix_cache == old(self).indexed_prefix_cache,
            final(self).indexed_latency_ms == old(self).indexed_latency_ms,
            match first_key_index(old(self).final_query_cache@, key@) {
                Some(i) => r matches Some(v) && v@ == old(self).final_query_cache@[i].1@
                    && final(self).final_query_cache@ == old(self).final_query_cache@.remove(i).push(
                    old(self).final_query_cache@[i],
                ),
                None => r is None && final(self).final_query_cache@ == old(self).final_query_cache@,
            },
    {
        match find_key(&self.final_query_cache, key) {
            Some(i) => {
                let entry = self.final_query_cache.remove(i);
                let results = copy_items(&entry.1);
                self.final_query_cache.push(entry);
                Some(results)
            },
            None => None,
        }
    }

    /// Keeps `results` under `key` as the most recently used entry, dropping
    /// the least recently used beyond 32; empty results are not kept.
    pub fn store_final_query_results(&mut self, key: String, results: &[SearchItem])
        ensures
            final(self).indexed_prefix_cache == old(self).indexed_prefix_cache,
            final(self).indexed_latency_ms == old(self).indexed_latency_ms,
            results@.len() == 0 ==> final(self).final_query_cache@ == old(self).final_query_cache@,
            results@.len() > 0 ==> stores_entry(
                old(self).final_query_cache@,
                final(self).final_query_cache@,
                key@,
                results@,
            ),
    {
        if results.len() == 0 {
            return;
        }
        match find_key(&self.final_query_cache, key.as_str()) {
            Some(i) => {
                self.final_query_cache.remove(i);
            },
            None => {},
        }
        let ghost base = self.final_query_cache@;
        let mut copy: Vec<SearchItem> = Vec::new();
        let mut k: usize = 0;
        while k < results.len()
            invariant
                k <= results@.len(),
                copy@ == results@.take(k as int),
            decreases results@.len() - k,
        {
            copy.push(results[k].clone());
            proof {
                assert(results@.take((k + 1) as int) =~= results@.take(k as int).push(results@[k as int]));
            }
            k = k + 1;
        }
        proof {
            assert(results@.take(results@.len() as int) =~= results@);
        }
        let ghost kv = key@;
        self.final_query_cache.push((key, copy));
        let cur_len = self.final_query_cache.len();
        proof {
            assert(cur_len == base.len() + 1);
        }
        let mut dropped: usize = 0;
        while self.final_query_cache.len() > FINAL_QUERY_CACHE_MAX_ENTRIES
            invariant
                dropped <= base.len(),
                base.len() < usize::MAX,
                self.final_query_cache@.len() == base.len() - dropped + 1,
                dropped > 0 ==> base.len() - dropped + 1 >= 32,
                self.indexed_prefix_cache == old(self).indexed_prefix_cache,
                self.indexed_latency_ms == old(self).indexed_latency_ms,
                self.final_query_cache@ == base.skip(dropped as int).push(self.final_query_cache@.last()),
                self.final_query_cache@.last().0@ == kv,
                self.final_query_cache@.last().1@ == results@,
            decreases self.final_query_cache@.len(),
        {
            let ghost last = self.final_query_cache@.last();
            self.final_query_cache.remove(0);
            proof {
                assert(base.skip(dropped as int).len() > 0);
                assert(self.final_query_cache@ =~= base.skip(dropped + 1).push(last));
            }
            dropped = dropped + 1;
        }
        proof {
            assert(self.final_query_cache@.drop_last() =~= base.skip(dropped as int));
            if base.len() > 31 {
                assert(dropped == base.len() - 31);
            } else {
                assert(dropped == 0);
                assert(base.skip(0) =~= base);
            }
        }
    }

    /// Adds a latency sample, keeping the latest 24.
    pub fn record_indexed_latency_sample(&mut self, indexed_ms: u128)
        ensures
            final(self).indexed_prefix_cache == old(self).indexed_prefix_cache,
            final(self).final_query_cache == old(self).final_query_cache,
            final(self).indexed_latency_ms@ == keep_last(old(self).indexed_latency_ms@.push(indexed_ms), 24),
    {
        self.indexed_latency_ms.push(indexed_ms);
        let ghost all = self.indexed_latency_ms@;
        let cur_len = self.indexed_latency_ms.len();
        proof {
            assert(cur_len == all.len());
        }
        let mut dropped: usize = 0;
        while self.indexed_latency_ms.len() > ADAPTIVE_INDEXED_LATENCY_WINDOW
            invariant
                dropped <= all.len(),
                all.len() <= usize::MAX,
                self.indexed_latency_ms@.len() == all.len() - dropped,
                dropped > 0 ==> all.len() - dropped >= 24,
                self.indexed_prefix_cache == old(self).indexed_prefix_cache,
                self.final_query_cache == old(self).final_query_cache,
                self.indexed_latency_ms@ == all.skip(dropped as int),
            decreases self.indexed_latency_ms@.len(),
        {
            self.indexed_latency_ms.remove(0);
            proof {
                assert(self.indexed_latency_ms@ =~= all.skip(dropped + 1));
            }
            dropped = dropped + 1;
        }
        proof {
            if all.len() <= 24 {
                assert(all.skip(0) =~= all);
            }
        }
    }
}


/// How `{:?}` shows a search mode.
pub open spec fn mode_debug(m: SearchMode) -> Seq<char> {
    match m {
        SearchMode::All => "All"@,
        SearchMode::Apps => "Apps"@,
        SearchMode::Files => "Files"@,
        SearchMode::Actions => "Actions"@,
        SearchMode::Clipboard => "Clipboard"@,
    }
}

fn mode_debug_str(m: SearchMode) -> (s: &'static str)
    ensures
        s@ == mode_debug(m),
{
    match m {
        SearchMode::All => "All",
        SearchMode::Apps => "Apps",
        SearchMode::Files => "Files",
        SearchMode::Actions => "Actions",
        SearchMode::Clipboard => "Clipboard",
    }
}

/// How `{:?}` shows an optional time window.
pub open spec fn window_debug(w: Option<TimeFilterWindow>) -> Seq<char> {
    match w {
        None => "None"@,
        Some(TimeFilterWindow::Today) => "Some(Today)"@,
        Some(TimeFilterWindow::Week) => "Some(Week)"@,
        Some(TimeFilterWindow::Month) => "Some(Month)"@,
    }
}

fn window_debug_str(w: Option<TimeFilterWindow>) -> (s: &'static str)
    ensures
        s@ == window_debug(w),
{
    match w {
        None => "None",
        Some(TimeFilterWindow::Today) => "Some(Today)",
        Some(TimeFilterWindow::Week) => "Some(Week)",
        Some(TimeFilterWindow::Month) => "Some(Month)",
    }
}

fn joined(parts: &Vec<String>, sep: char) -> (out: Vec<char>)
    ensures
        out@ == join(strings(parts@), seq![sep]),
{
    let mut chars: Vec<Vec<char>> = Vec::new();
    let mut i: usize = 0;
    while i < parts.len()
        invariant
            i <= parts@.len(),
            views(chars@) == strings(parts@).take(i as int),
        decreases parts@.len() - i,
    {
        let c = text::chars_of(parts[i].as_str());
        let ghost before = chars@;
        chars.push(c);
        proof {
            assert(views(chars@) =~= views(before).push(c@));
            assert(strings(parts@).take((i + 1) as int) =~= strings(parts@).take(i as int).push(parts@[i as int]@));
        }
        i = i + 1;
    }
    proof {
        assert(strings(parts@).take(parts@.len() as int) =~= strings(parts@));
    }
    crate::query_dsl::join_chars(&chars, sep)
}

/// The include groups as cache-key text: `-` when there are none, else each
/// group's terms joined by `+`, the groups joined by `|`.
pub open spec fn encoded_groups(groups: Seq<Seq<Seq<char>>>) -> Seq<char> {
    if groups.len() == 0 {
        "-"@
    } else {
        join(groups.map_values(|g: Seq<Seq<char>>| join(g, seq!['+'])), seq!['|'])
    }
}

pub fn encode_term_groups(groups: &Vec<Vec<String>>) -> (out: String)
    ensures
        out@ == encoded_groups(string_groups(groups@)),
{
    if groups.len() == 0 {
        return text::owned("-");
    }
    let ghost target = string_groups(groups@).map_values(|g: Seq<Seq<char>>| join(g, seq!['+']));
    let mut parts: Vec<Vec<char>> = Vec::new();
    let mut i: usize = 0;
    while i < groups.len()
        invariant
            i <= groups@.len(),
            target == string_groups(groups@).map_values(|g: Seq<Seq<char>>| join(g, seq!['+'])),
            views(parts@) == target.take(i as int),
        decreases groups@.len() - i,
    {
        let g = joined(&groups[i], '+');
        let ghost before = parts@;
        parts.push(g);
        proof {
            assert(views(parts@) =~= views(before).push(g@));
            assert(target[i as int] == join(strings(groups@[i as int]@), seq!['+']));
            assert(target.take((i + 1) as int) =~= target.take(i as int).push(target[i as int]));
        }
        i = i + 1;
    }
    proof {
        assert(target.take(groups@.len() as int) =~= target);
    }
    let j = crate::query_dsl::join_chars(&parts, '|');
    text::string_of(&j)
}

/// The final-results cache key of a query.
pub open spec fn cache_key(pq: ParsedQuery, f: SearchFilter, nq: Seq<char>, limit: nat) -> Seq<char> {
    "q="@ + nq + ";mode="@ + mode_debug(f.mode) + ";kind="@ + (match opt_string(f.kind_filter) {
        Some(k) => k,
        None => "-"@,
    }) + ";ext="@ + (match opt_string(f.extension_filter) {
        Some(e) => e,
        None => "-"@,
    }) + ";include="@ + encoded_groups(string_groups(f.include_groups@)) + ";exclude="@ + join(
        strings(f.exclude_terms@),
        seq![','],
    ) + ";modified="@ + window_debug(f.modified_within) + ";created="@ + window_debug(f.created_within)
        + ";cmd="@ + crate::config_template::bool_text(pq.command_mode) + ";limit="@ + decimal(limit)
}

pub fn final_query_cache_key(
    parsed_query: &ParsedQuery,
    filter: &SearchFilter,
    normalized_query: &str,
    result_limit: usize,
) -> (out: String)
    ensures
        out@ == cache_key(*parsed_query, *filter, normalized_query@, result_limit as nat),
{
    let mut out = text::concat("q=", normalized_query);
    text::push_str(&mut out, ";mode=");
    text::push_str(&mut out, mode_debug_str(filter.mode));
    text::push_str(&mut out, ";kind=");
    match &filter.kind_filter {
        Some(k) => text::push_str(&mut out, k.as_str()),
        None => text::push_str(&mut out, "-"),
    }
    text::push_str(&mut out, ";ext=");
    match &filter.extension_filter {
        Some(e) => text::push_str(&mut out, e.as_str()),
        None => text::push_str(&mut out, "-"),
    }
    text::push_str(&mut out, ";include=");
    let groups = encode_term_groups(&filter.include_groups);
    text::push_str(&mut out, groups.as_str());
    text::push_str(&mut out, ";exclude=");
    let ex = joined(&filter.exclude_terms, ',');
    let exs = text::string_of(&ex);
    text::push_str(&mut out, exs.as_str());
    text::push_str(&mut out, ";modified=");
    text::push_str(&mut out, window_debug_str(filter.modified_within));
    text::push_str(&mut out, ";created=");
    text::push_str(&mut out, window_debug_str(filter.created_within));
    text::push_str(&mut out, ";cmd=");
    text::push_str(&mut out, if parsed_query.command_mode { "true" } else { "false" });
    text::push_str(&mut out, ";limit=");
    let d = decimal_u64(result_limit as u64);
    let ds = text::string_of(&d);
    text::push_str(&mut out, ds.as_str());
    proof {
        assert(out@ =~= cache_key(*parsed_query, *filter, normalized_query@, result_limit as nat));
    }
    out
}

} // verus!
