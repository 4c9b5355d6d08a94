//! Clipboard history: what is recorded, how long it is kept, and how entries
//! are shown and searched.
use vstd::prelude::*;

use crate::config::{texts, Config};
use crate::model::SearchItem;
use crate::search::{ranked_results, search_with_filter_at, FileTimes, SearchFilter};
use crate::settings::{decimal, decimal_u64};
use crate::text;

verus! {

/// At most this many entries are kept.
pub const MAX_CLIPBOARD_ENTRIES: usize = 500;

/// One recorded clipboard text.
#[derive(Debug, PartialEq, Eq)]
pub struct ClipboardEntry {
    pub id: String,
    pub text: String,
    pub captured_epoch_secs: i64,
}

impl Clone for ClipboardEntry {
    fn clone(&self) -> (e: Self)
        ensures
            e == *self,
    {
        ClipboardEntry {
            id: self.id.clone(),
            text: self.text.clone(),
            captured_epoch_secs: self.captured_epoch_secs,
        }
    }
}

/// `s` without the characters `a` and `b`.
pub open spec fn without_chars(s: Seq<char>, a: char, b: char) -> Seq<char>
    decreases s.len(),
{
    if s.len() == 0 {
        Seq::empty()
    } else {
        without_chars(s.drop_last(), a, b) + (if s.last() == a || s.last() == b {
            Seq::empty()
        } else {
            seq![s.last()]
        })
    }
}

/// Clipboard text as recorded: NUL and carriage-return characters removed,
/// then trimmed.
pub open spec fn clipboard_text(raw: Seq<char>) -> Seq<char> {
    text::trim(without_chars(raw, '\0', '\r'))
}

pub fn normalize_clipboard_text(input: &str) -> (out: String)
    ensures
        out@ == clipboard_text(input@),
{
    let v = text::chars_of(input);
    let mut kept: Vec<char> = Vec::new();
    let mut i: usize = 0;
    while i < v.len()
        invariant
            i <= v@.len(),
            kept@ == without_chars(v@.take(i as int), '\0', '\r'),
        decreases v@.len() - i,
    {
        let c = v[i];
        proof {
            assert(v@.take((i + 1) as int).drop_last() =~= v@.take(i as int));
        }
        if c != '\0' && c != '\r' {
            kept.push(c);
        } else {
            proof {
                assert(kept@ =~= kept@ + Seq::<char>::empty());
            }
        }
        i = i + 1;
    }
    proof {
        assert(v@.take(v@.len() as int) =~= v@);
    }
    let t = text::trim_vec(&kept);
    text::string_of(&t)
}

/// At most `max_chars` characters of the text on one line: line feeds become
/// spaces and the ends are trimmed.
pub open spec fn preview(value: Seq<char>, max_chars: int) -> Seq<char> {
    let single = text::trim(value.map_values(|c: char| if c == '\n' { ' ' } else { c }));
    if single.len() <= max_chars { single } else { single.take(max_chars) }
}

pub fn preview_text(value: &str, max_chars: usize) -> (out: String)
    ensures
        out@ == preview(value@, max_chars as int),
{
    let v = text::chars_of(value);
    let mut line: Vec<char> = Vec::new();
    let mut i: usize = 0;
    while i < v.len()
        invariant
            i <= v@.len(),
            line@ == v@.take(i as int).map_values(|c: char| if c == '\n' { ' ' } else { c }),
        decreases v@.len() - i,
    {
        let c = v[i];
        line.push(if c == '\n' { ' ' } else { c });
        proof {
            assert(v@.take((i + 1) as int).map_values(|c: char| if c == '\n' { ' ' } else { c })
                =~= v@.take(i as int).map_values(|c: char| if c == '\n' { ' ' } else { c }).push(
                if c == '\n' { ' ' } else { c },
            ));
        }
        i = i + 1;
    }
    proof {
        assert(v@.take(v@.len() as int) =~= v@);
    }
    let single = text::trim_vec(&line);
    let n = if single.len() <= max_chars { single.len() } else { max_chars };
    proof {
        assert(single@.subrange(0, n as int) =~= (if single@.len() <= max_chars { single@ } else {
            single@.take(max_chars as int)
        }));
    }
    text::string_of_range(&single, 0, n)
}

/// The text contains, ignoring ASCII case, one of the non-blank patterns.
pub open spec fn sensitive(value: Seq<char>, patterns: Seq<Seq<char>>) -> bool {
    exists|i: int|
        0 <= i < patterns.len() && {
            let p = text::ascii_lower(text::trim(#[trigger] patterns[i]));
            p.len() > 0 && text::contains(text::ascii_lower(value), p)
        }
}

pub fn is_sensitive_content(value: &str, patterns: &[String]) -> (b: bool)
    ensures
        b == sensitive(value@, texts(patterns@)),
{
    let v = text::chars_of(value);
    let lowered = text::lower_vec(&v);
    let mut i: usize = 0;
    while i < patterns.len()
        invariant
            i <= patterns@.len(),
            lowered@ == text::ascii_lower(value@),
            forall|k: int| 0 <= k < i ==> !({
                let p = text::ascii_lower(text::trim(#[trigger] texts(patterns@)[k]));
                p.len() > 0 && text::contains(text::ascii_lower(value@), p)
            }),
        decreases patterns@.len() - i,
    {
        let t = text::trimmed_chars(patterns[i].as_str());
        let p = text::lower_vec(&t);
        proof {
            assert(texts(patterns@)[i as int] == patterns@[i as int]@);
        }
        if p.len() > 0 && text::vec_contains(&lowered, &p) {
            return true;
        }
        i = i + 1;
    }
    false
}

/// `a - b`, saturating at the ends of `i64`.
pub open spec fn sat_sub_i64(a: int, b: int) -> int {
    if a - b > i64::MAX { i64::MAX as int } else if a - b < i64::MIN { i64::MIN as int } else { a - b }
}

fn saturating_sub_i64(a: i64, b: i64) -> (r: i64)
    ensures
        r == sat_sub_i64(a as int, b as int),
{
    let d = a as i128 - b as i128;
    if d > i64::MAX as i128 {
        i64::MAX
    } else if d < i64::MIN as i128 {
        i64::MIN
    } else {
        d as i64
    }
}

/// How long ago an entry was captured, in words.
pub open spec fn age_text(captured: int, now: int) -> Seq<char> {
    let age = sat_sub_i64(now, captured);
    if age < 60 {
        "just now"@
    } else if age < 3600 {
        decimal((age / 60) as nat) + "m ago"@
    } else if age < 86_400 {
        decimal((age / 3600) as nat) + "h ago"@
    } else {
        decimal((age / 86_400) as nat) + "d ago"@
    }
}

pub fn relative_age(captured_epoch_secs: i64, now: i64) -> (out: String)
    ensures
        out@ == age_text(captured_epoch_secs as int, now as int),
{
    let age = saturating_sub_i64(now, captured_epoch_secs);
    if age < 60 {
        return text::owned("just now");
    }
    let (n, unit) = if age < 3600 {
        ((age / 60) as u64, "m ago")
    } else if age < 86_400 {
        ((age / 3600) as u64, "h ago")
    } else {
        ((age / 86_400) as u64, "d ago")
    };
    let d = decimal_u64(n);
    let mut out = text::string_of(&d);
    text::push_str(&mut out, unit);
    out
}

/// An entry is kept while its capture time is positive, not in the future and
/// within the retention window.
pub open spec fn retained(e: ClipboardEntry, now: int, retention_minutes: int) -> bool {
    0 < e.captured_epoch_secs && e.captured_epoch_secs <= now && sat_sub_i64(now, e.captured_epoch_secs as int)
        <= retention_minutes * 60
}

/// The retained entries among `entries`, in order.
pub open spec fn retained_entries(entries: Seq<ClipboardEntry>, now: int, retention_minutes: int) -> Seq<ClipboardEntry>
    decreases entries.len(),
{
    if entries.len() == 0 {
        Seq::empty()
    } else {
        retained_entries(entries.drop_last(), now, retention_minutes) + (if retained(
            entries.last(),
            now,
            retention_minutes,
        ) {
            seq![entries.last()]
        } else {
            Seq::empty()
        })
    }
}

/// The retained entries, in order, at most the first 500 of them.
pub open spec fn pruned(entries: Seq<ClipboardEntry>, now: int, retention_minutes: int) -> Seq<ClipboardEntry> {
    let kept = retained_entries(entries, now, retention_minutes);
    if kept.len() > 500 { kept.take(500) } else { kept }
}

proof fn lemma_retained_all(entries: Seq<ClipboardEntry>, now: int, retention_minutes: int)
    ensures
        forall|k: int| 0 <= k < retained_entries(entries, now, retention_minutes).len() ==> retained(
            #[trigger] retained_entries(entries, now, retention_minutes)[k],
            now,
            retention_minutes,
        ),
        retained_entries(entries, now, retention_minutes).len() <= entries.len(),
    decreases entries.len(),
{
    if entries.len() > 0 {
        lemma_retained_all(entries.drop_last(), now, retention_minutes);
    }
}

proof fn lemma_retained_identity(entries: Seq<ClipboardEntry>, now: int, retention_minutes: int)
    requires
        forall|k: int| 0 <= k < entries.len() ==> retained(#[trigger] entries[k], now, retention_minutes),
    ensures
        retained_entries(entries, now, retention_minutes) == entries,
    decreases entries.len(),
{
    if entries.len() > 0 {
        let d = entries.drop_last();
        assert forall|k: int| 0 <= k < d.len() implies retained(#[trigger] d[k], now, retention_minutes) by {
            assert(d[k] == entries[k]);
        }
        lemma_retained_identity(d, now, retention_minutes);
        assert(retained(entries[entries.len() - 1], now, retention_minutes));
        assert(d.push(entries.last()) =~= entries);
        assert(d + seq![entries.last()] =~= entries);
    } else {
        assert(entries =~= Seq::<ClipboardEntry>::empty());
    }
}

/// Pruning twice at the same moment keeps what pruning once keeps.
pub proof fn law_prune_idempotent(entries: Seq<ClipboardEntry>, now: int, retention_minutes: int)
    ensures
        pruned(pruned(entries, now, retention_minutes), now, retention_minutes) == pruned(
            entries,
            now,
            retention_minutes,
        ),
{
    let kept = retained_entries(entries, now, retention_minutes);
    let p = pruned(entries, now, retention_minutes);
    lemma_retained_all(entries, now, retention_minutes);
    assert forall|k: int| 0 <= k < p.len() implies retained(#[trigger] p[k], now, retention_minutes) by {
        assert(p[k] == kept[k]);
    }
    lemma_retained_identity(p, now, retention_minutes);
    assert(p.len() <= 500);
}

/// Drops expired and future-dated entries and keeps at most 500.
pub fn prune_entries(cfg: &Config, entries: &mut Vec<ClipboardEntry>, now: i64)
    ensures
        final(entries)@ == pruned(old(entries)@, now as int, cfg.clipboard_retention_minutes as int),
{
    let retention_secs = (cfg.clipboard_retention_minutes as i64) * 60;
    let ghost start = entries@;
    let mut kept: Vec<ClipboardEntry> = Vec::new();
    let mut i: usize = 0;
    while i < entries.len()
        invariant
            i <= entries@.len(),
            entries@ == start,
            retention_secs == cfg.clipboard_retention_minutes as int * 60,
            kept@ == retained_entries(start.take(i as int), now as int, cfg.clipboard_retention_minutes as int),
        decreases entries@.len() - i,
    {
        let e = &entries[i];
        let keep = e.captured_epoch_secs > 0 && e.captured_epoch_secs <= now && saturating_sub_i64(
            now,
            e.captured_epoch_secs,
        ) <= retention_secs;
        proof {
            assert(start.take((i + 1) as int).drop_last() =~= start.take(i as int));
            assert(start.take((i + 1) as int).last() == start[i as int]);
        }
        if keep {
            kept.push(e.clone());
        } else {
            proof {
                assert(kept@ =~= kept@ + Seq::<ClipboardEntry>::empty());
            }
        }
        i = i + 1;
    }
    proof {
        assert(start.take(start.len() as int) =~= start);
    }
    if kept.len() > MAX_CLIPBOARD_ENTRIES {
        kept.truncate(MAX_CLIPBOARD_ENTRIES);
        proof {
            assert(kept@ =~= retained_entries(start, now as int, cfg.clipboard_retention_minutes as int).take(500));
        }
    }
    *entries = kept;
}


/// The search item that shows a clipboard entry at time `now`.
pub open spec fn is_clipboard_item(item: SearchItem, e: ClipboardEntry, now: int) -> bool {
    &&& item.id@ == "clipboard:"@ + e.id@
    &&& item.kind@ == "clipboard"@
    &&& item.title@ == preview(e.text@, 96)
    &&& item.path@ == "Copied "@ + age_text(e.captured_epoch_secs as int, now) + " · "@ + preview(e.text@, 180)
    &&& item.use_count == 0
    &&& item.last_accessed_epoch_secs == e.captured_epoch_secs
    &&& item.normalized_from_fields()
}

fn clipboard_item(e: &ClipboardEntry, now: i64) -> (item: SearchItem)
    ensures
        is_clipboard_item(item, *e, now as int),
{
    let id = text::concat("clipboard:", e.id.as_str());
    let title = preview_text(e.text.as_str(), 96);
    let age = relative_age(e.captured_epoch_secs, now);
    let mut subtitle = text::concat("Copied ", age.as_str());
    text::push_str(&mut subtitle, " · ");
    let long = preview_text(e.text.as_str(), 180);
    text::push_str(&mut subtitle, long.as_str());
    let item = SearchItem::new(id.as_str(), "clipboard", title.as_str(), subtitle.as_str());
    item.with_usage(0, e.captured_epoch_secs)
}

/// What `search_history` searches: one item per entry, in order.
pub open spec fn clipboard_items_for(items: Seq<SearchItem>, entries: Seq<ClipboardEntry>, now: int) -> bool {
    &&& items.len() == entries.len()
    &&& forall|k: int| 0 <= k < items.len() ==> is_clipboard_item(#[trigger] items[k], entries[k], now)
}

/// A clipboard search at `now`: with the history on, a positive limit and
/// some entries, the expired entries are pruned (`after`) and `out` ranks the
/// items that show the remaining ones; otherwise nothing is found or changed.
pub open spec fn history_search(
    cfg: Config,
    query: Seq<char>,
    filter: SearchFilter,
    limit: int,
    before: Seq<ClipboardEntry>,
    after: Seq<ClipboardEntry>,
    now: int,
    out: Seq<SearchItem>,
) -> bool {
    &&& (!cfg.clipboard_enabled || limit == 0 || before.len() == 0) ==> out.len() == 0 && after == before
    &&& (cfg.clipboard_enabled && limit > 0 && before.len() > 0) ==> {
        &&& after == pruned(before, now, cfg.clipboard_retention_minutes as int)
        &&& exists|items: Seq<SearchItem>|
            clipboard_items_for(items, after, now) && ranked_results(items, query, limit, filter, Seq::empty(), now, out)
    }
}

/// Searches the clipboard history at time `now`. Expired entries are pruned
/// from `entries` first (the caller saves them); nothing is searched when the
/// history is off, the limit is zero or there are no entries.
pub fn search_history(
    cfg: &Config,
    query: &str,
    filter: &SearchFilter,
    limit: usize,
    entries: &mut Vec<ClipboardEntry>,
    now: i64,
) -> (out: Vec<SearchItem>)
    ensures
        history_search(*cfg, query@, *filter, limit as int, old(entries)@, final(entries)@, now as int, out@),
{
    if !cfg.clipboard_enabled || limit == 0 {
        return Vec::new();
    }
    if entries.len() == 0 {
        return Vec::new();
    }
    prune_entries(cfg, entries, now);
    let mut items: Vec<SearchItem> = Vec::new();
    let mut i: usize = 0;
    while i < entries.len()
        invariant
            i <= entries@.len(),
            items@.len() == i,
            forall|k: int| 0 <= k < i ==> is_clipboard_item(#[trigger] items@[k], entries@[k], now as int),
        decreases entries@.len() - i,
    {
        let item = clipboard_item(&entries[i], now);
        items.push(item);
        i = i + 1;
    }
    let times: Vec<Option<FileTimes>> = Vec::new();
    let out = search_with_filter_at(items.as_slice(), query, limit, filter, times.as_slice(), now);
    proof {
        assert(times@ =~= Seq::<Option<FileTimes>>::empty());
        assert(clipboard_items_for(items@, entries@, now as int));
    }
    out
}

/// The text of the entry a `clipboard:<id>` result names.
pub open spec fn result_text(entries: Seq<ClipboardEntry>, result_id: Seq<char>) -> Option<Seq<char>> {
    let prefix = "clipboard:"@;
    if !text::starts_with(result_id, prefix) {
        None
    } else if exists|i: int| 0 <= i < entries.len() && (#[trigger] entries[i]).id@ == result_id.skip(prefix.len() as int) {
        let i = choose|i: int| 0 <= i < entries.len() && (#[trigger] entries[i]).id@ == result_id.skip(prefix.len() as int)
            && forall|k: int| 0 <= k < i ==> entries[k].id@ != result_id.skip(prefix.len() as int);
        Some(entries[i].text@)
    } else {
        None
    }
}

pub fn resolve_text_for_result(entries: &[ClipboardEntry], result_id: &str) -> (r: Option<String>)
    ensures
        crate::query_dsl::opt_string(r) == result_text(entries@, result_id@),
{
    let id = text::chars_of(result_id);
    let prefix = text::chars_of("clipboard:");
    if !text::vec_starts_with(&id, &prefix) {
        return None;
    }
    let entry_id = text::slice_vec(&id, prefix.len(), id.len());
    proof {
        assert(entry_id@ =~= result_id@.skip("clipboard:"@.len() as int));
    }
    let mut i: usize = 0;
    while i < entries.len()
        invariant
            i <= entries@.len(),
            text::starts_with(result_id@, "clipboard:"@),
            entry_id@ == result_id@.skip("clipboard:"@.len() as int),
            forall|k: int| 0 <= k < i ==> (#[trigger] entries@[k]).id@ != entry_id@,
        decreases entries@.len() - i,
    {
        if text::vec_eq_str(&entry_id, entries[i].id.as_str()) {
            proof {
                assert(entries@[i as int].id@ == entry_id@);
                let c = choose|c: int| 0 <= c < entries@.len() && (#[trigger] entries@[c]).id@ == entry_id@
                    && forall|k: int| 0 <= k < c ==> entries@[k].id@ != entry_id@;
                assert(c == i as int) by {
                    if c < i {
                        assert(entries@[c].id@ != entry_id@);
                    }
                    if c > i {
                        assert(entries@[i as int].id@ == entry_id@);
                    }
                }
            }
            return Some(text::owned(entries[i].text.as_str()));
        }
        i = i + 1;
    }
    None
}

/// The text to put back on the clipboard for a clipboard result, or why
/// there is none; the caller writes it to the system clipboard.
pub fn copy_result_to_clipboard(entries: &[ClipboardEntry], result_id: &str) -> (r: Result<String, String>)
    ensures
        match result_text(entries@, result_id@) {
            Some(t) => r matches Ok(s) && s@ == t,
            None => r matches Err(e) && e@ == "clipboard entry not found"@,
        },
{
    match resolve_text_for_result(entries, result_id) {
        Some(t) => Ok(t),
        None => Err(text::owned("clipboard entry not found")),
    }
}

/// The decimal text of a signed number.
pub open spec fn signed_decimal(n: int) -> Seq<char> {
    if n < 0 { seq!['-'] + decimal((-n) as nat) } else { decimal(n as nat) }
}

pub fn signed_decimal_text(n: i64) -> (out: String)
    ensures
        out@ == signed_decimal(n as int),
{
    if n < 0 {
        let m = (0i128 - n as i128) as u64;
        let d = decimal_u64(m);
        let mut out = text::owned("-");
        let ds = text::string_of(&d);
        text::push_str(&mut out, ds.as_str());
        proof {
            reveal_strlit("-");
        }
        out
    } else {
        let d = decimal_u64(n as u64);
        text::string_of(&d)
    }
}

/// The id given to an entry captured at `now`: the time and the low six
/// decimal digits of the nanosecond clock.
pub open spec fn capture_id(now: int, nanos: int) -> Seq<char> {
    "clip-"@ + signed_decimal(now) + "-"@ + decimal((nanos % 1_000_000) as nat)
}

/// Whether the clipboard text is recorded, and the history that results.
pub open spec fn captures(cfg: Config, raw: Option<Seq<char>>, entries: Seq<ClipboardEntry>) -> bool {
    match raw {
        None => false,
        Some(r) => {
            let t = clipboard_text(r);
            &&& cfg.clipboard_enabled
            &&& t.len() > 0
            &&& !sensitive(t, texts(cfg.clipboard_exclude_sensitive_patterns@))
            &&& !(entries.len() > 0 && entries[0].text@ == t)
        },
    }
}

/// Records the latest clipboard text (`raw`, read by the caller) at the front
/// of the history and prunes it, unless history is off, the text is blank or
/// sensitive, or it repeats the newest entry. Says whether it recorded.
pub fn maybe_capture_latest(
    cfg: &Config,
    raw: Option<&str>,
    entries: &mut Vec<ClipboardEntry>,
    now: i64,
    nanos: u128,
) -> (captured: bool)
    ensures
        captured == captures(*cfg, match raw { Some(r) => Some(r@), None => None }, old(entries)@),
        !captured ==> final(entries)@ == old(entries)@,
        captured ==> exists|e: ClipboardEntry|
            {
                &&& e.id@ == capture_id(now as int, nanos as int)
                &&& e.text@ == clipboard_text(raw->0@)
                &&& e.captured_epoch_secs == now
                &&& final(entries)@ == pruned(seq![e] + old(entries)@, now as int, cfg.clipboard_retention_minutes as int)
            },
{
    if !cfg.clipboard_enabled {
        return false;
    }
    let r = match raw {
        Some(r) => r,
        None => {
            return false;
        },
    };
    let t = normalize_clipboard_text(r);
    if t.as_str().unicode_len() == 0 {
        return false;
    }
    if is_sensitive_content(t.as_str(), cfg.clipboard_exclude_sensitive_patterns.as_slice()) {
        return false;
    }
    if entries.len() > 0 && text::str_eq(entries[0].text.as_str(), t.as_str()) {
        return false;
    }
    let mut id = text::concat("clip-", signed_decimal_text(now).as_str());
    text::push_str(&mut id, "-");
    let d = decimal_u64((nanos % 1_000_000) as u64);
    let ds = text::string_of(&d);
    text::push_str(&mut id, ds.as_str());
    proof {
        assert(id@ =~= capture_id(now as int, nanos as int));
    }
    let e = ClipboardEntry { id, text: t, captured_epoch_secs: now };
    let ghost ge = e;
    let ghost before = entries@;
    entries.insert(0, e);
    proof {
        assert(entries@ =~= seq![e] + before);
    }
    prune_entries(cfg, entries, now);
    proof {
        assert(ge.text@ == clipboard_text(raw->0@));
        assert(entries@ == pruned(seq![ge] + old(entries)@, now as int, cfg.clipboard_retention_minutes as int));
    }
    true
}

proof fn lemma_retained_front(e: ClipboardEntry, rest: Seq<ClipboardEntry>, now: int, retention_minutes: int)
    requires
        retained(e, now, retention_minutes),
    ensures
        retained_entries(seq![e] + rest, now, retention_minutes) == seq![e] + retained_entries(rest, now, retention_minutes),
    decreases rest.len(),
{
    if rest.len() == 0 {
        assert(seq![e] + rest =~= seq![e]);
        assert(seq![e].drop_last() =~= Seq::<ClipboardEntry>::empty());
        assert(seq![e].last() == e);
        assert(retained_entries(Seq::<ClipboardEntry>::empty(), now, retention_minutes) =~= Seq::<ClipboardEntry>::empty());
        assert(retained_entries(seq![e], now, retention_minutes) =~= Seq::<ClipboardEntry>::empty() + seq![e]);
        assert(retained_entries(rest, now, retention_minutes) =~= Seq::<ClipboardEntry>::empty());
    } else {
        lemma_retained_front(e, rest.drop_last(), now, retention_minutes);
        assert((seq![e] + rest).drop_last() =~= seq![e] + rest.drop_last());
        assert((seq![e] + rest).last() == rest.last());
        let tail = if retained(rest.last(), now, retention_minutes) {
            seq![rest.last()]
        } else {
            Seq::<ClipboardEntry>::empty()
        };
        assert(seq![e] + retained_entries(rest.drop_last(), now, retention_minutes) + tail =~= seq![e]
            + (retained_entries(rest.drop_last(), now, retention_minutes) + tail));
    }
}

/// Clipboard text that repeats the newest entry of the history is not
/// recorded again, whatever the settings.
pub proof fn law_repeated_clipboard_text_not_recorded(cfg: Config, raw: Seq<char>, entries: Seq<ClipboardEntry>)
    requires
        entries.len() > 0,
        entries[0].text@ == clipboard_text(raw),
    ensures
        !captures(cfg, Some(raw), entries),
{
}

/// Recording clipboard text at a time after the epoch makes it the newest
/// entry, so the same text read again at once is not recorded a second time:
/// an unchanged clipboard is recorded only once.
pub proof fn law_unchanged_clipboard_recorded_once(
    cfg: Config,
    raw: Seq<char>,
    entries: Seq<ClipboardEntry>,
    e: ClipboardEntry,
    now: int,
    after: Seq<ClipboardEntry>,
)
    requires
        captures(cfg, Some(raw), entries),
        e.text@ == clipboard_text(raw),
        e.captured_epoch_secs == now,
        0 < now <= i64::MAX,
        after == pruned(seq![e] + entries, now, cfg.clipboard_retention_minutes as int),
    ensures
        after.len() > 0,
        after[0] == e,
        !captures(cfg, Some(raw), after),
{
    let m = cfg.clipboard_retention_minutes as int;
    assert(retained(e, now, m));
    lemma_retained_front(e, entries, now, m);
}

} // verus!
