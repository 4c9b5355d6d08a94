//! The decisions of the core service: result limits, cache upkeep, query
//! memory boosts, index reconciliation and when a stale entry is dropped.
use vstd::prelude::*;

use crate::action_executor::{launch_error_text, LaunchError};
use crate::config::SearchMode;
use crate::contract::LaunchRequest;
use crate::discovery::ProviderError;
use crate::model::SearchItem;
use crate::search::{kind_is, SearchFilter};
use crate::settings::{all_digits, digits_value};
use crate::text;

verus! {

/// Why a service call failed. A store error is carried as its message.
#[derive(Debug, Clone, PartialEq, Eq)]
pub enum ServiceError {
    Config(String),
    Store(String),
    Provider(ProviderError),
    Launch(LaunchError),
    InvalidRequest(String),
    ItemNotFound(String),
}

/// How a service error is shown to a user.
pub open spec fn service_error_text(e: ServiceError) -> Seq<char> {
    match e {
        ServiceError::Config(m) => "config error: "@ + m@,
        ServiceError::Store(m) => "store error: "@ + m@,
        ServiceError::Provider(p) => "provider error: "@ + p.text(),
        ServiceError::Launch(l) => "launch error: "@ + launch_error_text(l),
        ServiceError::InvalidRequest(m) => "invalid request: "@ + m@,
        ServiceError::ItemNotFound(id) => "item not found: "@ + id@,
    }
}

impl ServiceError {
    pub fn message(&self) -> (m: String)
        ensures
            m@ == service_error_text(*self),
    {
        match self {
            ServiceError::Config(m) => text::concat("config error: ", m.as_str()),
            ServiceError::Store(m) => text::concat("store error: ", m.as_str()),
            ServiceError::Provider(p) => text::concat("provider error: ", p.message().as_str()),
            ServiceError::Launch(l) => text::concat("launch error: ", l.message().as_str()),
            ServiceError::InvalidRequest(m) => text::concat("invalid request: ", m.as_str()),
            ServiceError::ItemNotFound(id) => text::concat("item not found: ", id.as_str()),
        }
    }
}

/// What a launch names: an indexed item or a path.
pub enum LaunchTarget<'a> {
    Id(&'a str),
    Path(&'a str),
}

/// What one provider's refresh did.
#[derive(Debug, Clone, PartialEq, Eq)]
pub struct ProviderRefreshReport {
    pub provider: String,
    pub discovered: usize,
    pub upserted: usize,
    pub removed: usize,
    pub skipped: bool,
    pub elapsed_ms: u128,
}

/// What an index refresh did, in total and per provider.
#[derive(Debug, Clone, PartialEq, Eq)]
pub struct IndexRefreshReport {
    pub indexed_total: usize,
    pub discovered_total: usize,
    pub upserted_total: usize,
    pub removed_total: usize,
    pub providers: Vec<ProviderRefreshReport>,
}

/// The text of a present, non-blank option.
pub open spec fn nonblank(o: Option<String>) -> Option<Seq<char>> {
    match o {
        Some(s) => if text::trim(s@).len() > 0 { Some(s@) } else { None },
        None => None,
    }
}

/// A launch request's target: a non-blank id first, else a non-blank path.
pub fn launch_request_target<'a>(request: &'a LaunchRequest) -> (r: Result<LaunchTarget<'a>, ServiceError>)
    ensures
        match r {
            Ok(LaunchTarget::Id(id)) => nonblank(request.id) == Some(id@),
            Ok(LaunchTarget::Path(p)) => nonblank(request.id) is None && nonblank(request.path) == Some(p@),
            Err(e) => nonblank(request.id) is None && nonblank(request.path) is None && (e matches ServiceError::InvalidRequest(m)
                && m@ == "launch requires non-empty id or path"@),
        },
{
    match &request.id {
        Some(id) => {
            if !text::is_blank(id.as_str()) {
                return Ok(LaunchTarget::Id(id.as_str()));
            }
        },
        None => {},
    }
    match &request.path {
        Some(p) => {
            if !text::is_blank(p.as_str()) {
                return Ok(LaunchTarget::Path(p.as_str()));
            }
        },
        None => {},
    }
    Err(ServiceError::InvalidRequest(text::owned("launch requires non-empty id or path")))
}

/// The number of results a search returns: the configured maximum when no
/// limit is asked; a capped search never exceeds that maximum.
pub open spec fn effective_limit(limit: int, max_results: int, capped: bool) -> int {
    if limit == 0 {
        max_results
    } else if capped && limit > max_results {
        max_results
    } else {
        limit
    }
}

pub fn effective_search_limit(limit: usize, max_results: u16, capped: bool) -> (n: usize)
    ensures
        n == effective_limit(limit as int, max_results as int, capped),
{
    let max = max_results as usize;
    if limit == 0 {
        max
    } else if capped && limit > max {
        max
    } else {
        limit
    }
}

/// The key under which query memory is kept for a mode.
pub open spec fn mode_key(mode: SearchMode) -> Seq<char> {
    crate::config_template::mode_name(mode)
}

pub fn search_mode_key(mode: SearchMode) -> (s: &'static str)
    ensures
        s@ == mode_key(mode),
{
    match mode {
        SearchMode::All => "all",
        SearchMode::Apps => "apps",
        SearchMode::Files => "files",
        SearchMode::Actions => "actions",
        SearchMode::Clipboard => "clipboard",
    }
}

/// Apps-only searches use the app cache.
pub fn should_use_app_cache(filter: &SearchFilter) -> (b: bool)
    ensures
        b == (filter.mode == SearchMode::Apps),
{
    filter.mode == SearchMode::Apps
}

/// Text searches in the All and Files modes also ask the database.
pub fn should_use_db_query_seed(filter: &SearchFilter, query: &str) -> (b: bool)
    ensures
        b == (text::trim(query@).len() > 0 && (filter.mode == SearchMode::All || filter.mode
            == SearchMode::Files)),
{
    !text::is_blank(query) && (filter.mode == SearchMode::All || filter.mode == SearchMode::Files)
}

/// A recently chosen result gets a boost that fades over a month.
pub open spec fn recency_boost(last_selected: int, now: int) -> int {
    if last_selected <= 0 || now <= 0 {
        0
    } else {
        let age = now - last_selected;
        if age <= 86_400 {
            900
        } else if age <= 7 * 86_400 {
            550
        } else if age <= 30 * 86_400 {
            220
        } else {
            0
        }
    }
}

pub fn query_memory_recency_boost(last_selected_epoch_secs: i64, now_epoch_secs: i64) -> (b: i64)
    ensures
        b == recency_boost(last_selected_epoch_secs as int, now_epoch_secs as int),
{
    if last_selected_epoch_secs <= 0 || now_epoch_secs <= 0 {
        return 0;
    }
    let age = now_epoch_secs - last_selected_epoch_secs;
    if age <= 86_400 {
        900
    } else if age <= 7 * 86_400 {
        550
    } else if age <= 30 * 86_400 {
        220
    } else {
        0
    }
}

/// The boost of a remembered choice: 280 per selection (counting at most
/// twelve) plus the recency boost, kept within 0..=5000.
pub open spec fn selection_boost(selected_count: int, last_selected: int, now: int) -> int {
    let usage = (if selected_count < 12 { selected_count } else { 12 }) * 280;
    let total = usage + recency_boost(last_selected, now);
    if total < 0 { 0 } else if total > 5_000 { 5_000 } else { total }
}

pub fn query_selection_boost(selected_count: u32, last_selected_epoch_secs: i64, now: i64) -> (b: i64)
    ensures
        b == selection_boost(selected_count as int, last_selected_epoch_secs as int, now as int),
{
    let capped: i64 = if selected_count < 12 { selected_count as i64 } else { 12 };
    let total = capped * 280 + query_memory_recency_boost(last_selected_epoch_secs, now);
    if total < 0 {
        0
    } else if total > 5_000 {
        5_000
    } else {
        total
    }
}

/// An absolute Windows or Unix path (`C:\...`, `C:/...`, `\...` or `/...`).
pub open spec fn filesystem_path(path: Seq<char>) -> bool {
    (path.len() > 0 && (path[0] == '/' || path[0] == '\\')) || (path.len() >= 3 && (path[0] as u32)
        < 128 && path[1] == ':' && (path[2] == '\\' || path[2] == '/'))
}

pub fn looks_like_filesystem_path(path: &str) -> (b: bool)
    ensures
        b == filesystem_path(path@),
{
    let v = text::chars_of(path);
    if v.len() > 0 && (v[0] == '/' || v[0] == '\\') {
        return true;
    }
    v.len() >= 3 && (v[0] as u32) < 128 && v[1] == ':' && (v[2] == '\\' || v[2] == '/')
}

/// Which kinds of index entries a provider owns.
pub open spec fn manages_kind(provider: Seq<char>, kind: Seq<char>) -> bool {
    let k = text::ascii_lower(kind);
    if provider == "start-menu-apps"@ || provider == "app"@ {
        k == "app"@
    } else if provider == "filesystem"@ || provider == "file"@ {
        k == "file"@ || k == "folder"@
    } else {
        false
    }
}

pub fn provider_manages_kind(provider_name: &str, kind: &str) -> (b: bool)
    ensures
        b == manages_kind(provider_name@, kind@),
{
    let kv = text::chars_of(kind);
    let k = text::lower_vec(&kv);
    if text::str_eq(provider_name, "start-menu-apps") || text::str_eq(provider_name, "app") {
        text::vec_eq_str(&k, "app")
    } else if text::str_eq(provider_name, "filesystem") || text::str_eq(provider_name, "file") {
        text::vec_eq_str(&k, "file") || text::vec_eq_str(&k, "folder")
    } else {
        false
    }
}

/// An app, file or folder entry.
pub open spec fn launchable_kind(kind: Seq<char>) -> bool {
    kind_is(kind, "app"@) || kind_is(kind, "file"@) || kind_is(kind, "folder"@)
}

/// A failed launch of an indexed file-system entry whose file is gone drops
/// the entry: the path is missing, or the shell reported "file not found" (2)
/// or "path not found" (3).
pub open spec fn prunes_after_launch_error(item: SearchItem, error: LaunchError) -> bool {
    let fs = filesystem_path(text::trim(item.path@));
    match error {
        LaunchError::MissingPath(_) => fs && launchable_kind(item.kind@),
        LaunchError::LaunchFailed { code: Some(c), .. } => (c == 2 || c == 3) && fs && launchable_kind(
            item.kind@,
        ),
        _ => false,
    }
}

fn is_launchable_kind(kind: &str) -> (b: bool)
    ensures
        b == launchable_kind(kind@),
{
    text::eq_ignore_ascii_case(kind, "app") || text::eq_ignore_ascii_case(kind, "file")
        || text::eq_ignore_ascii_case(kind, "folder")
}

pub fn should_prune_after_launch_error(item: &SearchItem, error: &LaunchError) -> (b: bool)
    ensures
        b == prunes_after_launch_error(*item, *error),
{
    let trimmed = text::trim_str(item.path.as_str());
    let fs = looks_like_filesystem_path(trimmed.as_str());
    match error {
        LaunchError::MissingPath(_) => fs && is_launchable_kind(item.kind.as_str()),
        LaunchError::LaunchFailed { code: Some(c), .. } => (*c == 2 || *c == 3) && fs && is_launchable_kind(
            item.kind.as_str(),
        ),
        _ => false,
    }
}

/// An item as recorded after a successful launch at `now`: one more use
/// (saturating at the counter's maximum), last accessed at `now` unless it
/// was already later, everything else unchanged.
pub fn launched_item(item: &SearchItem, now: i64) -> (out: SearchItem)
    ensures
        out.id == item.id,
        out.kind == item.kind,
        out.title == item.title,
        out.path == item.path,
        out.normalized_title == item.normalized_title,
        out.normalized_search_text == item.normalized_search_text,
        out.use_count == (if item.use_count == u32::MAX { u32::MAX } else { (item.use_count + 1) as u32 }),
        out.last_accessed_epoch_secs == (if now > item.last_accessed_epoch_secs {
            now
        } else {
            item.last_accessed_epoch_secs
        }),
{
    let mut out = item.duplicate();
    out.use_count = item.use_count.saturating_add(1);
    if now > item.last_accessed_epoch_secs {
        out.last_accessed_epoch_secs = now;
    }
    out
}

/// The metadata key of a provider's change stamp.
pub fn provider_stamp_meta_key(provider_name: &str) -> (k: String)
    ensures
        k@ == "provider_stamp:"@ + provider_name@,
{
    text::concat("provider_stamp:", provider_name)
}

/// The metadata key of a provider's last scan time.
pub fn provider_last_scan_meta_key(provider_name: &str) -> (k: String)
    ensures
        k@ == "provider_last_scan_epoch:"@ + provider_name@,
{
    text::concat("provider_last_scan_epoch:", provider_name)
}

/// A provider whose stamp is unchanged is rescanned at most this often.
pub const PROVIDER_RECONCILE_INTERVAL_SECS: i64 = 1800;

/// The value `str::parse::<i64>` gives for a text, if any: an optional `+`
/// or `-`, then one or more ASCII digits, whose value fits in an `i64`.
pub open spec fn i64_text_value(s: Seq<char>) -> Option<i64> {
    let negative = s.len() > 0 && s[0] == '-';
    let d = if s.len() > 0 && (s[0] == '+' || s[0] == '-') { s.drop_first() } else { s };
    if d.len() == 0 || !all_digits(d) {
        None
    } else if negative {
        if digits_value(d) <= 0x8000_0000_0000_0000 { Some((-digits_value(d)) as i64) } else { None }
    } else {
        if digits_value(d) <= i64::MAX { Some(digits_value(d) as i64) } else { None }
    }
}

/// Calls `str::parse::<i64>`, which its documentation describes as accepting
/// an optional sign followed by only digits, within the type's range.
#[verifier::external_body]
fn parse_i64(s: &str) -> (r: Option<i64>)
    ensures
        r == i64_text_value(s@),
{
    s.parse::<i64>().ok()
}

/// The recorded last scan time (0 when missing or unreadable).
pub open spec fn last_scan_epoch(last_scan: Option<Seq<char>>) -> int {
    match last_scan {
        Some(t) => match i64_text_value(t) {
            Some(v) => v as int,
            None => 0,
        },
        None => 0,
    }
}

/// A provider's discovery may be skipped when it has a stamp, the stamp is
/// the one recorded, and its last scan (recorded, positive) was less than the
/// reconcile interval ago.
pub open spec fn skips_discovery(
    stamp: Option<Seq<char>>,
    previous_stamp: Option<Seq<char>>,
    last_scan: Option<Seq<char>>,
    now: int,
) -> bool {
    match stamp {
        None => false,
        Some(s) => {
            let last = last_scan_epoch(last_scan);
            &&& previous_stamp == Some(s)
            &&& last > 0
            &&& crate::clipboard_history::sat_sub_i64(now, last) < PROVIDER_RECONCILE_INTERVAL_SECS
        },
    }
}

/// Whether a provider's discovery can be skipped, given its stamp now and
/// the stamp and last scan time the index recorded for it.
pub fn should_skip_provider_discovery(
    stamp: Option<&str>,
    previous_stamp: Option<&str>,
    last_scan: Option<&str>,
    now_epoch_secs: i64,
) -> (b: bool)
    ensures
        b == skips_discovery(
            match stamp {
                Some(s) => Some(s@),
                None => None,
            },
            match previous_stamp {
                Some(s) => Some(s@),
                None => None,
            },
            match last_scan {
                Some(s) => Some(s@),
                None => None,
            },
            now_epoch_secs as int,
        ),
{
    let s = match stamp {
        Some(s) => s,
        None => {
            return false;
        },
    };
    match previous_stamp {
        Some(p) => {
            if !text::str_eq(p, s) {
                return false;
            }
        },
        None => {
            return false;
        },
    }
    let last: i64 = match last_scan {
        Some(t) => match parse_i64(t) {
            Some(v) => v,
            None => 0,
        },
        None => 0,
    };
    if last <= 0 {
        return false;
    }
    let d = now_epoch_secs as i128 - last as i128;
    let elapsed: i64 = if d > i64::MAX as i128 {
        i64::MAX
    } else if d < i64::MIN as i128 {
        i64::MIN
    } else {
        d as i64
    };
    elapsed < PROVIDER_RECONCILE_INTERVAL_SECS
}

/// Replaces the cached item with the same id, or appends the item.
pub open spec fn upserted(cached: Seq<SearchItem>, item: SearchItem) -> Seq<SearchItem> {
    if exists|i: int| 0 <= i < cached.len() && (#[trigger] cached[i]).id@ == item.id@ {
        let i = choose|i: int| 0 <= i < cached.len() && (#[trigger] cached[i]).id@ == item.id@ && forall|k: int|
            0 <= k < i ==> cached[k].id@ != item.id@;
        cached.update(i, item)
    } else {
        cached.push(item)
    }
}

pub fn upsert_cached_item_inner(cached: &mut Vec<SearchItem>, item: SearchItem)
    ensures
        final(cached)@ == upserted(old(cached)@, item),
{
    let mut i: usize = 0;
    while i < cached.len()
        invariant
            i <= cached@.len(),
            cached@ == old(cached)@,
            forall|k: int| 0 <= k < i ==> (#[trigger] cached@[k]).id@ != item.id@,
        decreases cached@.len() - i,
    {
        if text::str_eq(cached[i].id.as_str(), item.id.as_str()) {
            proof {
                let c = choose|c: int| 0 <= c < cached@.len() && (#[trigger] cached@[c]).id@ == item.id@ && forall|k: int|
                    0 <= k < c ==> cached@[k].id@ != item.id@;
                assert(0 <= i < cached@.len() && cached@[i as int].id@ == item.id@ && forall|k: int|
                    0 <= k < i ==> cached@[k].id@ != item.id@);
                assert(c == i as int) by {
                    if c < i {
                        assert(cached@[c].id@ != item.id@);
                    }
                    if c > i {
                        assert(cached@[i as int].id@ == item.id@);
                    }
                }
            }
            cached.set(i, item);
            return;
        }
        i = i + 1;
    }
    cached.push(item);
}

/// The app items, in order.
pub open spec fn app_items(items: Seq<SearchItem>) -> Seq<SearchItem>
    decreases items.len(),
{
    if items.len() == 0 {
        Seq::empty()
    } else {
        app_items(items.drop_last()) + (if kind_is(items.last().kind@, "app"@) {
            seq![items.last()]
        } else {
            Seq::empty()
        })
    }
}

pub fn collect_app_items(items: &[SearchItem]) -> (out: Vec<SearchItem>)
    ensures
        out@ == app_items(items@),
{
    let mut out: Vec<SearchItem> = Vec::new();
    let mut i: usize = 0;
    while i < items.len()
        invariant
            i <= items@.len(),
            out@ == app_items(items@.take(i as int)),
        decreases items@.len() - i,
    {
        proof {
            assert(items@.take((i + 1) as int).drop_last() =~= items@.take(i as int));
            assert(items@.take((i + 1) as int).last() == items@[i as int]);
        }
        if text::eq_ignore_ascii_case(items[i].kind.as_str(), "app") {
            out.push(items[i].clone());
        } else {
            proof {
                assert(out@ =~= out@ + Seq::<SearchItem>::empty());
            }
        }
        i = i + 1;
    }
    proof {
        assert(items@.take(items@.len() as int) =~= items@);
    }
    out
}

/// The cache keeps every item but at most `cap` files and folders (the first ones).
pub open spec fn compacted(items: Seq<SearchItem>, cap: int) -> Seq<SearchItem>
    decreases items.len(),
{
    if items.len() == 0 {
        Seq::empty()
    } else {
        let prev = compacted(items.drop_last(), cap);
        let last = items.last();
        if crate::search::is_file_or_folder(last.kind@) && file_count(prev) >= cap {
            prev
        } else {
            prev.push(last)
        }
    }
}

/// How many files and folders `items` holds.
pub open spec fn file_count(items: Seq<SearchItem>) -> int
    decreases items.len(),
{
    if items.len() == 0 {
        0
    } else {
        file_count(items.drop_last()) + (if crate::search::is_file_or_folder(items.last().kind@) {
            1int
        } else {
            0int
        })
    }
}

proof fn lemma_file_count_push(s: Seq<SearchItem>, x: SearchItem)
    ensures
        file_count(s.push(x)) == file_count(s) + (if crate::search::is_file_or_folder(x.kind@) { 1int } else { 0int }),
        file_count(s) <= s.len(),
{
    assert(s.push(x).drop_last() =~= s);
    lemma_file_count_bound(s);
}

proof fn lemma_file_count_bound(s: Seq<SearchItem>)
    ensures
        0 <= file_count(s) <= s.len(),
    decreases s.len(),
{
    if s.len() > 0 {
        lemma_file_count_bound(s.drop_last());
    }
}

/// The cached item list: all items, with at most `max(seed_cap, 250)` files
/// and folders.
pub fn compact_cached_items(items: &[SearchItem], seed_cap: usize) -> (out: Vec<SearchItem>)
    ensures
        out@ == compacted(items@, if seed_cap >= 250 { seed_cap as int } else { 250 }),
{
    let cap = if seed_cap >= 250 { seed_cap } else { 250 };
    let mut out: Vec<SearchItem> = Vec::new();
    let mut files: usize = 0;
    let mut i: usize = 0;
    while i < items.len()
        invariant
            i <= items@.len(),
            out@ == compacted(items@.take(i as int), cap as int),
            files == file_count(out@),
            out@.len() <= i,
        decreases items@.len() - i,
    {
        proof {
            assert(items@.take((i + 1) as int).drop_last() =~= items@.take(i as int));
            assert(items@.take((i + 1) as int).last() == items@[i as int]);
            lemma_file_count_bound(out@);
        }
        let is_file = text::eq_ignore_ascii_case(items[i].kind.as_str(), "file") || text::eq_ignore_ascii_case(
            items[i].kind.as_str(),
            "folder",
        );
        if is_file && files >= cap {
        } else {
            let c = items[i].clone();
            proof {
                lemma_file_count_push(out@, c);
            }
            out.push(c);
            if is_file {
                files = files + 1;
            }
        }
        i = i + 1;
    }
    proof {
        assert(items@.take(items@.len() as int) =~= items@);
    }
    out
}

/// The seed items followed by the extra items whose ids are new, each id once.
pub open spec fn merged_seed(seed: Seq<SearchItem>, extra: Seq<SearchItem>) -> Seq<SearchItem>
    decreases extra.len(),
{
    if extra.len() == 0 {
        seed
    } else {
        let prev = merged_seed(seed, extra.drop_last());
        if exists|i: int| 0 <= i < prev.len() && (#[trigger] prev[i]).id@ == extra.last().id@ {
            prev
        } else {
            prev.push(extra.last())
        }
    }
}

/// Adds the database candidates that the seed items do not already hold.
pub fn merge_seed_candidates(seed_items: &mut Vec<SearchItem>, extra: Vec<SearchItem>)
    ensures
        final(seed_items)@ == merged_seed(old(seed_items)@, extra@),
{
    let mut i: usize = 0;
    while i < extra.len()
        invariant
            i <= extra@.len(),
            seed_items@ == merged_seed(old(seed_items)@, extra@.take(i as int)),
        decreases extra@.len() - i,
    {
        proof {
            assert(extra@.take((i + 1) as int).drop_last() =~= extra@.take(i as int));
            assert(extra@.take((i + 1) as int).last() == extra@[i as int]);
        }
        let mut seen = false;
        let mut k: usize = 0;
        while k < seed_items.len()
            invariant
                k <= seed_items@.len(),
                i < extra@.len(),
                seen == exists|m: int| 0 <= m < k && (#[trigger] seed_items@[m]).id@ == extra@[i as int].id@,
            decreases seed_items@.len() - k,
        {
            if text::str_eq(seed_items[k].id.as_str(), extra[i].id.as_str()) {
                seen = true;
            }
            k = k + 1;
        }
        if !seen {
            seed_items.push(extra[i].clone());
        }
        i = i + 1;
    }
    proof {
        assert(extra@.take(extra@.len() as int) =~= extra@);
    }
}

/// The path whose existence decides whether an index entry is stale: the
/// trimmed path of an app, file or folder that is an absolute local path.
pub open spec fn stale_check_path(item: SearchItem) -> Option<Seq<char>> {
    let p = text::trim(item.path@);
    if !launchable_kind(item.kind@) || p.len() == 0 || text::contains(p, "://"@) || !filesystem_path(p) {
        None
    } else {
        Some(p)
    }
}

pub fn stale_index_check_path(item: &SearchItem) -> (r: Option<String>)
    ensures
        crate::query_dsl::opt_string(r) == stale_check_path(*item),
{
    if !is_launchable_kind(item.kind.as_str()) {
        return None;
    }
    let p = text::trim_str(item.path.as_str());
    if p.as_str().unicode_len() == 0 || text::str_contains(p.as_str(), "://") || !looks_like_filesystem_path(
        p.as_str(),
    ) {
        return None;
    }
    Some(p)
}

/// `x` brought back below `len` by one subtraction (`x % len` for `x < 2 * len`).
pub open spec fn wrap(x: int, len: int) -> int {
    if x >= len { x - len } else { x }
}

/// The positions of the next stale-check batch: up to `batch` positions,
/// wrapping around, from the cursor (clamped to the list); and the next cursor.
pub open spec fn prune_window(len: int, cursor: int, batch: int) -> (Seq<int>, int) {
    if batch == 0 || len == 0 {
        (Seq::empty(), if len == 0 { 0 } else { cursor })
    } else {
        let start = if cursor < len - 1 { cursor } else { len - 1 };
        let take = if batch < len { batch } else { len };
        (Seq::new(take as nat, |k: int| wrap(start + k, len)), wrap(start + take, len))
    }
}

fn wrap_exec(start: usize, k: usize, len: usize) -> (r: usize)
    requires
        start < len,
        k <= len,
    ensures
        r == wrap(start + k, len as int),
{
    let x = start as u128 + k as u128;
    if x >= len as u128 {
        (x - len as u128) as usize
    } else {
        x as usize
    }
}

pub fn stale_prune_window(len: usize, cursor: usize, batch: usize) -> (r: (Vec<usize>, usize))
    ensures
        r.0@.map_values(|x: usize| x as int) == prune_window(len as int, cursor as int, batch as int).0,
        r.1 as int == prune_window(len as int, cursor as int, batch as int).1,
{
    if batch == 0 || len == 0 {
        let v: Vec<usize> = Vec::new();
        proof {
            assert(v@.map_values(|x: usize| x as int) =~= Seq::<int>::empty());
        }
        return (v, if len == 0 { 0 } else { cursor });
    }
    let start = if cursor < len - 1 { cursor } else { len - 1 };
    let take = if batch < len { batch } else { len };
    let mut out: Vec<usize> = Vec::new();
    let mut k: usize = 0;
    while k < take
        invariant
            k <= take <= len,
            start < len,
            out@.len() == k,
            forall|j: int| 0 <= j < k ==> #[trigger] out@[j] as int == wrap(start + j, len as int),
        decreases take - k,
    {
        let idx = wrap_exec(start, k, len);
        out.push(idx);
        k = k + 1;
    }
    proof {
        assert(out@.map_values(|x: usize| x as int) =~= Seq::new(take as nat, |j: int| wrap(start + j, len as int)));
    }
    let next = wrap_exec(start, take, len);
    (out, next)
}


// ---------------------------------------------------------------------------
// Index reconciliation
// ---------------------------------------------------------------------------

/// Two items agree in every field.
pub open spec fn same_item(a: SearchItem, b: SearchItem) -> bool {
    &&& a.id@ == b.id@
    &&& a.kind@ == b.kind@
    &&& a.title@ == b.title@
    &&& a.path@ == b.path@
    &&& a.use_count == b.use_count
    &&& a.last_accessed_epoch_secs == b.last_accessed_epoch_secs
    &&& a.normalized_title@ == b.normalized_title@
    &&& a.normalized_search_text@ == b.normalized_search_text@
}

fn same_item_exec(a: &SearchItem, b: &SearchItem) -> (r: bool)
    ensures
        r == same_item(*a, *b),
{
    text::str_eq(a.id.as_str(), b.id.as_str()) && text::str_eq(a.kind.as_str(), b.kind.as_str())
        && text::str_eq(a.title.as_str(), b.title.as_str()) && text::str_eq(a.path.as_str(), b.path.as_str())
        && a.use_count == b.use_count && a.last_accessed_epoch_secs == b.last_accessed_epoch_secs
        && text::str_eq(a.normalized_title.as_str(), b.normalized_title.as_str()) && text::str_eq(
        a.normalized_search_text.as_str(),
        b.normalized_search_text.as_str(),
    )
}

/// No id occurs twice.
pub open spec fn unique_ids(items: Seq<SearchItem>) -> bool {
    forall|i: int, j: int| 0 <= i < j < items.len() ==> (#[trigger] items[i]).id@ != (#[trigger] items[j]).id@
}

/// The index of the item with `id`.
pub open spec fn index_of_id(items: Seq<SearchItem>, id: Seq<char>) -> Option<int> {
    if exists|i: int| 0 <= i < items.len() && (#[trigger] items[i]).id@ == id {
        Some(choose|i: int| 0 <= i < items.len() && (#[trigger] items[i]).id@ == id)
    } else {
        None
    }
}

/// A discovered item keeps the usage that the index learned for its id.
pub open spec fn with_learned_usage(item: SearchItem, prev: Option<SearchItem>) -> SearchItem {
    match prev {
        Some(p) => SearchItem {
            use_count: if item.use_count == 0 { p.use_count } else { item.use_count },
            last_accessed_epoch_secs: if item.last_accessed_epoch_secs <= 0 {
                p.last_accessed_epoch_secs
            } else {
                item.last_accessed_epoch_secs
            },
            ..item
        },
        None => item,
    }
}

/// One discovered item absorbed into the entries: it keeps the learned usage
/// of the entry with its id and replaces it (or joins); it is to be written
/// when it differs from that entry.
#[verifier::opaque]
pub open spec fn absorb_step(entries: Seq<SearchItem>, d: SearchItem) -> (Seq<SearchItem>, Option<SearchItem>) {
    let before = match index_of_id(entries, d.id@) {
        Some(i) => Some(entries[i]),
        None => None,
    };
    let item = with_learned_usage(d, before);
    let changed = match before {
        Some(b) => !same_item(b, item),
        None => true,
    };
    (upserted(entries, item), if changed { Some(item) } else { None })
}

/// The index entries and the items to write after the first `n` discovered items.
pub open spec fn reconcile_discovered(existing: Seq<SearchItem>, discovered: Seq<SearchItem>, n: int) -> (Seq<SearchItem>, Seq<SearchItem>)
    decreases n,
{
    if n <= 0 {
        (existing, Seq::empty())
    } else {
        let prev = reconcile_discovered(existing, discovered, n - 1);
        let st = absorb_step(prev.0, discovered[n - 1]);
        (st.0, match st.1 {
            Some(x) => prev.1.push(x),
            None => prev.1,
        })
    }
}

/// Entries of `items` that the provider owns and that were not discovered.
pub open spec fn undiscovered_owned(items: Seq<SearchItem>, provider: Seq<char>, discovered: Seq<SearchItem>) -> Seq<SearchItem>
    decreases items.len(),
{
    if items.len() == 0 {
        Seq::empty()
    } else {
        let last = items.last();
        undiscovered_owned(items.drop_last(), provider, discovered) + (if manages_kind(provider, last.kind@)
            && !(exists|j: int| 0 <= j < discovered.len() && (#[trigger] discovered[j]).id@ == last.id@) {
            seq![last]
        } else {
            Seq::empty()
        })
    }
}

/// Entries of `items` that are kept.
pub open spec fn kept_after_removal(items: Seq<SearchItem>, provider: Seq<char>, discovered: Seq<SearchItem>) -> Seq<SearchItem>
    decreases items.len(),
{
    if items.len() == 0 {
        Seq::empty()
    } else {
        let last = items.last();
        kept_after_removal(items.drop_last(), provider, discovered) + (if manages_kind(provider, last.kind@)
            && !(exists|j: int| 0 <= j < discovered.len() && (#[trigger] discovered[j]).id@ == last.id@) {
            Seq::empty()
        } else {
            seq![last]
        })
    }
}

fn find_id(items: &Vec<SearchItem>, id: &str) -> (r: Option<usize>)
    ensures
        match r {
            Some(i) => i < items@.len() && items@[i as int].id@ == id@ && forall|k: int| 0 <= k < i ==> items@[k].id@ != id@,
            None => forall|k: int| 0 <= k < items@.len() ==> items@[k].id@ != id@,
        },
{
    let mut i: usize = 0;
    while i < items.len()
        invariant
            i <= items@.len(),
            forall|k: int| 0 <= k < i ==> items@[k].id@ != id@,
        decreases items@.len() - i,
    {
        if text::str_eq(items[i].id.as_str(), id) {
            return Some(i);
        }
        i = i + 1;
    }
    None
}

proof fn lemma_index_of_unique(items: Seq<SearchItem>, i: int)
    requires
        unique_ids(items),
        0 <= i < items.len(),
    ensures
        index_of_id(items, items[i].id@) == Some(i),
{
    let c = choose|c: int| 0 <= c < items.len() && (#[trigger] items[c]).id@ == items[i].id@;
    if c != i {
        if c < i {
            assert(items[c].id@ != items[i].id@);
        } else {
            assert(items[i].id@ != items[c].id@);
        }
    }
}

proof fn lemma_upserted_unique(items: Seq<SearchItem>, item: SearchItem)
    requires
        unique_ids(items),
    ensures
        unique_ids(upserted(items, item)),
        forall|k: int| 0 <= k < items.len() && items[k].id@ == item.id@ ==> upserted(items, item) == items.update(k, item),
        (forall|k: int| 0 <= k < items.len() ==> items[k].id@ != item.id@) ==> upserted(items, item) == items.push(item),
{
    if exists|i: int| 0 <= i < items.len() && (#[trigger] items[i]).id@ == item.id@ {
        let i = choose|i: int| 0 <= i < items.len() && (#[trigger] items[i]).id@ == item.id@ && forall|k: int|
            0 <= k < i ==> items[k].id@ != item.id@;
        let w = choose|w: int| 0 <= w < items.len() && (#[trigger] items[w]).id@ == item.id@;
        assert(exists|x: int| 0 <= x < items.len() && (#[trigger] items[x]).id@ == item.id@ && forall|k: int|
            0 <= k < x ==> items[k].id@ != item.id@) by {
            assert(0 <= w < items.len() && items[w].id@ == item.id@);
            assert forall|k: int| 0 <= k < w implies items[k].id@ != item.id@ by {
                assert(items[k].id@ != items[w].id@);
            }
        }
        let u = items.update(i, item);
        assert forall|a: int, b: int| 0 <= a < b < u.len() implies (#[trigger] u[a]).id@ != (#[trigger] u[b]).id@ by {
            if a == i {
                assert(items[b].id@ != items[i].id@);
            } else if b == i {
                assert(items[a].id@ != items[i].id@);
            } else {
                assert(items[a].id@ != items[b].id@);
            }
        }
        assert forall|k: int| 0 <= k < items.len() && items[k].id@ == item.id@ implies upserted(items, item) == items.update(k, item) by {
            if k != i {
                if k < i {
                    assert(items[k].id@ != items[i].id@);
                } else {
                    assert(items[i].id@ != items[k].id@);
                }
            }
        }
    } else {
        let u = items.push(item);
        assert forall|a: int, b: int| 0 <= a < b < u.len() implies (#[trigger] u[a]).id@ != (#[trigger] u[b]).id@ by {
            if b == items.len() {
                assert(u[a] == items[a]);
            } else {
                assert(items[a].id@ != items[b].id@);
            }
        }
    }
}

/// What a lookup by id gives back after an upsert: the upserted item itself.
/// Ids stay unique, and every entry with another id keeps its place.
pub proof fn law_upsert_then_lookup(items: Seq<SearchItem>, item: SearchItem)
    requires
        unique_ids(items),
    ensures
        unique_ids(upserted(items, item)),
        index_of_id(upserted(items, item), item.id@) matches Some(i) && upserted(items, item)[i] == item,
        forall|k: int| 0 <= k < items.len() && items[k].id@ != item.id@ ==> #[trigger] upserted(items, item)[k] == items[k],
        upserted(items, item).len() == items.len() || upserted(items, item).len() == items.len() + 1,
{
    lemma_upserted_unique(items, item);
    let u = upserted(items, item);
    if exists|k: int| 0 <= k < items.len() && (#[trigger] items[k]).id@ == item.id@ {
        let k = choose|k: int| 0 <= k < items.len() && (#[trigger] items[k]).id@ == item.id@;
        assert(u == items.update(k, item));
        lemma_index_of_unique(u, k);
    } else {
        assert(u == items.push(item));
        lemma_index_of_unique(u, items.len() as int);
    }
}

/// One step of `reconcile_discovered`: the discovered item `d` replaces (or
/// joins) the entries; it is returned when it has to be written.
fn absorb_discovered(existing: &mut Vec<SearchItem>, d: &SearchItem) -> (r: Option<SearchItem>)
    requires
        unique_ids(old(existing)@),
    ensures
        unique_ids(final(existing)@),
        (final(existing)@, r) == absorb_step(old(existing)@, *d),
{
    let mut item = d.clone();
    proof {
        reveal(absorb_step);
    }
    match find_id(existing, item.id.as_str()) {
        Some(k) => {
            proof {
                lemma_index_of_unique(existing@, k as int);
            }
            if item.use_count == 0 {
                item.use_count = existing[k].use_count;
            }
            if item.last_accessed_epoch_secs <= 0 {
                item.last_accessed_epoch_secs = existing[k].last_accessed_epoch_secs;
            }
            let changed = !same_item_exec(&existing[k], &item);
            proof {
                lemma_upserted_unique(existing@, item);
            }
            existing.set(k, item.clone());
            if changed { Some(item) } else { None }
        },
        None => {
            proof {
                lemma_upserted_unique(existing@, item);
            }
            existing.push(item.clone());
            Some(item)
        },
    }
}

/// All discovered items absorbed into the entries, in order; the items to
/// write are returned.
fn absorb_all(existing: &mut Vec<SearchItem>, discovered: &Vec<SearchItem>) -> (upserts: Vec<SearchItem>)
    requires
        unique_ids(old(existing)@),
    ensures
        unique_ids(final(existing)@),
        (final(existing)@, upserts@) == reconcile_discovered(old(existing)@, discovered@, discovered@.len() as int),
{
    let mut upserts: Vec<SearchItem> = Vec::new();
    let mut i: usize = 0;
    while i < discovered.len()
        invariant
            i <= discovered@.len(),
            unique_ids(existing@),
            (existing@, upserts@) == reconcile_discovered(old(existing)@, discovered@, i as int),
        decreases discovered@.len() - i,
    {
        let ghost prev = (existing@, upserts@);
        let r = absorb_discovered(existing, &discovered[i]);
        match r {
            Some(item) => {
                upserts.push(item);
            },
            None => {},
        }
        proof {
            let st = reconcile_discovered(old(existing)@, discovered@, (i + 1) as int);
            assert(prev == reconcile_discovered(old(existing)@, discovered@, i as int));
            assert(existing@ == st.0);
            assert(upserts@ == st.1);
        }
        i = i + 1;
    }
    upserts
}

/// Removes the owned entries that were not discovered; returns them.
fn remove_undiscovered(existing: &mut Vec<SearchItem>, discovered: &Vec<SearchItem>, provider_name: &str) -> (removed: Vec<SearchItem>)
    ensures
        removed@ == undiscovered_owned(old(existing)@, provider_name@, discovered@),
        final(existing)@ == kept_after_removal(old(existing)@, provider_name@, discovered@),
{
    let mut removed: Vec<SearchItem> = Vec::new();
    let mut kept: Vec<SearchItem> = Vec::new();
    let ghost st0 = existing@;
    let mut j: usize = 0;
    while j < existing.len()
        invariant
            j <= existing@.len(),
            existing@ == st0,
            removed@ == undiscovered_owned(st0.take(j as int), provider_name@, discovered@),
            kept@ == kept_after_removal(st0.take(j as int), provider_name@, discovered@),
        decreases existing@.len() - j,
    {
        proof {
            assert(st0.take((j + 1) as int).drop_last() =~= st0.take(j as int));
            assert(st0.take((j + 1) as int).last() == st0[j as int]);
        }
        let e = &existing[j];
        let owned = provider_manages_kind(provider_name, e.kind.as_str());
        let mut seen = false;
        let mut m: usize = 0;
        while m < discovered.len()
            invariant
                m <= discovered@.len(),
                j < existing@.len(),
                existing@ == st0,
                *e == existing@[j as int],
                seen == exists|x: int| 0 <= x < m && (#[trigger] discovered@[x]).id@ == existing@[j as int].id@,
            decreases discovered@.len() - m,
        {
            if text::str_eq(discovered[m].id.as_str(), e.id.as_str()) {
                seen = true;
                proof {
                    assert(discovered@[m as int].id@ == existing@[j as int].id@);
                }
            }
            m = m + 1;
        }
        if owned && !seen {
            removed.push(e.clone());
            proof {
                assert(kept@ =~= kept@ + Seq::<SearchItem>::empty());
            }
        } else {
            kept.push(e.clone());
            proof {
                assert(removed@ =~= removed@ + Seq::<SearchItem>::empty());
            }
        }
        j = j + 1;
    }
    proof {
        assert(st0.take(st0.len() as int) =~= st0);
    }
    *existing = kept;
    removed
}


/// Reconciles one provider's discovery with the index entries (`existing`,
/// one per id): each discovered item keeps the learned usage of its entry and
/// replaces it; items that changed are returned to be written; entries the
/// provider owns that it no longer discovered are removed from `existing` and
/// returned.
pub fn reconcile_provider_items(existing: &mut Vec<SearchItem>, discovered: &Vec<SearchItem>, provider_name: &str) -> (r: (
    Vec<SearchItem>,
    Vec<SearchItem>,
))
    requires
        unique_ids(old(existing)@),
    ensures
        ({
            let st = reconcile_discovered(old(existing)@, discovered@, discovered@.len() as int);
            &&& r.0@ == st.1
            &&& r.1@ == undiscovered_owned(st.0, provider_name@, discovered@)
            &&& final(existing)@ == kept_after_removal(st.0, provider_name@, discovered@)
        }),
        unique_ids(final(existing)@),
{
    let upserts = absorb_all(existing, discovered);
    let ghost absorbed = existing@;
    let removed = remove_undiscovered(existing, discovered, provider_name);
    proof {
        lemma_kept_unique(absorbed, provider_name@, discovered@);
    }
    (upserts, removed)
}

/// What removal keeps comes from the items, in order, so ids stay unique.
proof fn lemma_kept_unique(items: Seq<SearchItem>, provider: Seq<char>, discovered: Seq<SearchItem>)
    requires
        unique_ids(items),
    ensures
        unique_ids(kept_after_removal(items, provider, discovered)),
        forall|k: int|
            0 <= k < kept_after_removal(items, provider, discovered).len() ==> exists|j: int|
                0 <= j < items.len() && #[trigger] kept_after_removal(items, provider, discovered)[k] == items[j],
    decreases items.len(),
{
    if items.len() > 0 {
        let d = items.drop_last();
        assert(unique_ids(d)) by {
            assert forall|a: int, b: int| 0 <= a < b < d.len() implies (#[trigger] d[a]).id@ != (#[trigger] d[b]).id@ by {
                assert(d[a] == items[a] && d[b] == items[b]);
            }
        }
        lemma_kept_unique(d, provider, discovered);
        let kd = kept_after_removal(d, provider, discovered);
        let kept = kept_after_removal(items, provider, discovered);
        let last = items.last();
        assert forall|k: int| 0 <= k < kd.len() implies (#[trigger] kd[k]).id@ != last.id@ by {
            let j = choose|j: int| 0 <= j < d.len() && kd[k] == d[j];
            assert(items[j] == d[j]);
            assert(items[j].id@ != items[items.len() - 1].id@);
        }
        assert forall|k: int| 0 <= k < kept.len() implies exists|j: int| 0 <= j < items.len() && #[trigger] kept[k] == items[j] by {
            if k < kd.len() {
                assert(kept[k] == kd[k]);
                let j = choose|j: int| 0 <= j < d.len() && kd[k] == d[j];
                assert(items[j] == d[j]);
            } else {
                assert(kept[k] == items[items.len() - 1]);
            }
        }
        assert forall|a: int, b: int| 0 <= a < b < kept.len() implies (#[trigger] kept[a]).id@ != (#[trigger] kept[b]).id@ by {
            if b < kd.len() {
                assert(kept[a] == kd[a] && kept[b] == kd[b]);
            } else {
                assert(kept[a] == kd[a]);
                assert(kept[b] == last);
            }
        }
    }
}

} // verus!
