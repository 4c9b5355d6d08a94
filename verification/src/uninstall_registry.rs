//! Uninstall actions: recognising an uninstall query, ranking installed
//! applications against it, and preparing the uninstall command line.
use vstd::prelude::*;

use crate::model::{normalize, normalize_for_search, SearchItem};
use crate::query_dsl::join;
use crate::search::{seq_order, seq_order_exec, views};
use crate::text;

verus! {

/// The id prefix of uninstall actions; the rest of the id is the entry's token.
pub const ACTION_UNINSTALL_PREFIX: &'static str = "__swiftfind_action_uninstall__:";

// ---------------------------------------------------------------------------
// Uninstall intent
// ---------------------------------------------------------------------------

/// The state of `str::split_whitespace` after reading `s`: the finished words
/// and the word being read.
pub open spec fn words_state(s: Seq<char>) -> (Seq<Seq<char>>, Seq<char>)
    decreases s.len(),
{
    if s.len() == 0 {
        (Seq::empty(), Seq::empty())
    } else {
        let prev = words_state(s.drop_last());
        if text::is_ws(s.last()) {
            if prev.1.len() > 0 {
                (prev.0.push(prev.1), Seq::empty())
            } else {
                prev
            }
        } else {
            (prev.0, prev.1.push(s.last()))
        }
    }
}

/// The whitespace-separated words of `s` (`str::split_whitespace`).
pub open spec fn ws_words(s: Seq<char>) -> Seq<Seq<char>> {
    let st = words_state(s);
    if st.1.len() > 0 {
        st.0.push(st.1)
    } else {
        st.0
    }
}

pub fn ws_words_of(v: &Vec<char>) -> (words: Vec<Vec<char>>)
    ensures
        views(words@) == ws_words(v@),
{
    let mut words: Vec<Vec<char>> = Vec::new();
    let mut current: Vec<char> = Vec::new();
    let mut i: usize = 0;
    while i < v.len()
        invariant
            i <= v.len(),
            (views(words@), current@) == words_state(v@.take(i as int)),
        decreases v.len() - i,
    {
        let ch = v[i];
        proof {
            assert(v@.take((i + 1) as int).drop_last() =~= v@.take(i as int));
        }
        if text::is_whitespace(ch) {
            if current.len() > 0 {
                let ghost before = words@;
                words.push(current);
                current = Vec::new();
                proof {
                    assert(views(words@) =~= views(before).push(words@.last()@));
                }
            }
        } else {
            current.push(ch);
        }
        i = i + 1;
    }
    proof {
        assert(v@.take(v.len() as int) =~= v@);
    }
    if current.len() > 0 {
        let ghost before = words@;
        words.push(current);
        proof {
            assert(views(words@) =~= views(before).push(words@.last()@));
        }
    }
    words
}

/// The first word of an uninstall query.
pub open spec fn is_uninstall_verb(w: Seq<char>) -> bool {
    let l = text::ascii_lower(w);
    l == "uninstall"@ || l == "remove"@ || l == "delete"@ || l == "del"@ || l == "rm"@
}

/// What follows the verb of an uninstall query (`uninstall discord` gives
/// `discord`), or `None` when the query is not one.
pub open spec fn uninstall_search_term(query: Seq<char>) -> Option<Seq<char>> {
    let t = text::trim(query);
    let words = ws_words(t);
    if t.len() == 0 || words.len() == 0 || !is_uninstall_verb(words[0]) {
        None
    } else {
        Some(text::trim(join(words.drop_first(), " "@)))
    }
}

fn join_words(parts: &Vec<Vec<char>>, from: usize) -> (out: Vec<char>)
    requires
        from <= parts.len(),
    ensures
        out@ == join(views(parts@).skip(from as int), seq![' ']),
{
    let mut out: Vec<char> = Vec::new();
    let mut i: usize = from;
    while i < parts.len()
        invariant
            from <= i <= parts.len(),
            out@ == join(views(parts@).subrange(from as int, i as int), seq![' ']),
        decreases parts.len() - i,
    {
        let ghost before = out@;
        if i > from {
            out.push(' ');
        }
        let part = &parts[i];
        let mut k: usize = 0;
        while k < part.len()
            invariant
                k <= part.len(),
                part == parts@[i as int],
                i > from ==> out@ == before + seq![' '] + part@.take(k as int),
                i == from ==> out@ == before + part@.take(k as int),
            decreases part.len() - k,
        {
            out.push(part[k]);
            proof {
                assert(part@.take((k + 1) as int) =~= part@.take(k as int).push(part@[k as int]));
            }
            k = k + 1;
        }
        proof {
            assert(part@.take(part.len() as int) =~= part@);
            let vs = views(parts@).subrange(from as int, (i + 1) as int);
            assert(vs.drop_last() =~= views(parts@).subrange(from as int, i as int));
            assert(vs.last() == part@);
            if i == from {
                assert(before =~= Seq::<char>::empty());
                assert(vs.len() == 1);
                assert(out@ =~= part@);
            } else {
                assert(out@ =~= before + seq![' '] + part@);
            }
        }
        i = i + 1;
    }
    proof {
        assert(views(parts@).subrange(from as int, parts.len() as int) =~= views(parts@).skip(from as int));
    }
    out
}

/// Reads an uninstall query: its first word must be an uninstall verb, and
/// the rest of the words, joined by single spaces, is the search term.
pub fn extract_uninstall_search_term(query: &str) -> (r: Option<String>)
    ensures
        match r {
            Some(s) => uninstall_search_term(query@) == Some(s@),
            None => uninstall_search_term(query@) is None,
        },
{
    let t = text::trimmed_chars(query);
    if t.len() == 0 {
        return None;
    }
    let words = ws_words_of(&t);
    if words.len() == 0 {
        return None;
    }
    let first = text::lower_vec(&words[0]);
    proof {
        assert(views(words@)[0] == words@[0]@);
    }
    if !(text::vec_eq_str(&first, "uninstall") || text::vec_eq_str(&first, "remove")
        || text::vec_eq_str(&first, "delete") || text::vec_eq_str(&first, "del")
        || text::vec_eq_str(&first, "rm")) {
        return None;
    }
    let rest = join_words(&words, 1);
    proof {
        assert(views(words@).skip(1) =~= views(words@).drop_first());
        assert(seq![' '] =~= " "@) by {
            reveal_strlit(" ");
        }
    }
    let trimmed = text::trim_vec(&rest);
    Some(text::string_of(&trimmed))
}

/// Whether a query asks to uninstall something.
pub fn has_uninstall_intent(query: &str) -> (b: bool)
    ensures
        b == (uninstall_search_term(query@) is Some),
{
    extract_uninstall_search_term(query).is_some()
}


// ---------------------------------------------------------------------------
// Ranking installed applications
// ---------------------------------------------------------------------------

/// One installed application that can be uninstalled.
#[derive(Debug, Clone, PartialEq, Eq)]
pub struct UninstallEntry {
    pub token: String,
    pub display_name: String,
    pub publisher: String,
    pub uninstall_command: String,
}

pub open spec fn abs_diff(a: int, b: int) -> int {
    if a >= b { a - b } else { b - a }
}

/// How well an entry matches a normalized query, or `None` when it does not:
/// any entry matches an empty query; an exact name beats a name prefix, which
/// beats a name substring, which beats a publisher substring; closer byte
/// lengths rank higher within a tier.
pub open spec fn entry_score(e: UninstallEntry, q: Seq<char>) -> Option<int> {
    let n = normalize(e.display_name@);
    let p = normalize(e.publisher@);
    if q.len() == 0 {
        Some(100)
    } else if n == q {
        Some(20_000)
    } else if text::starts_with(n, q) {
        Some(16_000 - abs_diff(text::byte_len(n), text::byte_len(q)))
    } else if text::contains(n, q) {
        Some(12_000 - abs_diff(text::byte_len(n), text::byte_len(q)))
    } else if text::contains(p, q) {
        Some(8_000 - abs_diff(text::byte_len(p), text::byte_len(q)))
    } else {
        None
    }
}

fn abs_diff_exec(a: u128, b: u128) -> (d: u128)
    ensures
        d == abs_diff(a as int, b as int),
{
    if a >= b { a - b } else { b - a }
}

fn uninstall_entry_score(e: &UninstallEntry, q: &Vec<char>) -> (r: Option<i128>)
    ensures
        match r {
            Some(s) => entry_score(*e, q@) == Some(s as int),
            None => entry_score(*e, q@) is None,
        },
{
    if q.len() == 0 {
        return Some(100);
    }
    let name_v = text::chars_of(e.display_name.as_str());
    let n = crate::model::normalize_chars(&name_v);
    let pub_v = text::chars_of(e.publisher.as_str());
    let p = crate::model::normalize_chars(&pub_v);
    let qb = text::byte_len_of(q);
    proof {
        text::lemma_byte_len_bounds(q@);
        text::lemma_byte_len_bounds(n@);
        text::lemma_byte_len_bounds(p@);
    }
    if text::vec_eq(&n, q) {
        return Some(20_000);
    }
    if text::vec_starts_with(&n, q) {
        let d = abs_diff_exec(text::byte_len_of(&n), qb);
        return Some(16_000 - d as i128);
    }
    if text::vec_contains(&n, q) {
        let d = abs_diff_exec(text::byte_len_of(&n), qb);
        return Some(12_000 - d as i128);
    }
    if text::vec_contains(&p, q) {
        let d = abs_diff_exec(text::byte_len_of(&p), qb);
        return Some(8_000 - d as i128);
    }
    None
}


/// Ranking order of two scored entries `(score, index)`: higher score first,
/// then ASCII-lowercased display name, then token.
pub open spec fn pair_order(entries: Seq<UninstallEntry>, a: (int, int), b: (int, int)) -> int {
    let na = text::ascii_lower(entries[a.1].display_name@);
    let nb = text::ascii_lower(entries[b.1].display_name@);
    if a.0 != b.0 {
        if a.0 > b.0 { -1 } else { 1 }
    } else if seq_order(na, nb) != 0 {
        seq_order(na, nb)
    } else {
        seq_order(entries[a.1].token@, entries[b.1].token@)
    }
}

/// `x` placed into the ranked `s` after every element that does not rank
/// below it (a stable sort's insertion step).
pub open spec fn insert_ranked(entries: Seq<UninstallEntry>, s: Seq<(int, int)>, x: (int, int)) -> Seq<(int, int)>
    decreases s.len(),
{
    if s.len() == 0 {
        seq![x]
    } else if pair_order(entries, s[0], x) > 0 {
        seq![x] + s
    } else {
        seq![s[0]] + insert_ranked(entries, s.drop_first(), x)
    }
}

/// The matching entries among the first `n`, as `(score, index)`, stably
/// sorted by `pair_order`.
pub open spec fn ranked_entries(entries: Seq<UninstallEntry>, q: Seq<char>, n: int) -> Seq<(int, int)>
    decreases n,
{
    if n <= 0 {
        Seq::empty()
    } else {
        let prev = ranked_entries(entries, q, n - 1);
        match entry_score(entries[n - 1], q) {
            Some(sc) => insert_ranked(entries, prev, (sc, n - 1)),
            None => prev,
        }
    }
}

proof fn lemma_insert_at(entries: Seq<UninstallEntry>, s: Seq<(int, int)>, x: (int, int), p: int)
    requires
        0 <= p <= s.len(),
        forall|k: int| 0 <= k < p ==> pair_order(entries, #[trigger] s[k], x) <= 0,
        p < s.len() ==> pair_order(entries, s[p], x) > 0,
    ensures
        insert_ranked(entries, s, x) == s.take(p) + seq![x] + s.skip(p),
    decreases p,
{
    if p == 0 {
        if s.len() == 0 {
            assert(s.take(0) + seq![x] + s.skip(0) =~= seq![x]);
        } else {
            assert(s.take(0) + seq![x] + s.skip(0) =~= seq![x] + s);
        }
    } else {
        let t = s.drop_first();
        assert forall|k: int| 0 <= k < p - 1 implies pair_order(entries, #[trigger] t[k], x) <= 0 by {
            assert(t[k] == s[k + 1]);
        }
        if p - 1 < t.len() {
            assert(t[p - 1] == s[p]);
        }
        lemma_insert_at(entries, t, x, p - 1);
        assert(pair_order(entries, s[0], x) <= 0);
        assert(seq![s[0]] + (t.take(p - 1) + seq![x] + t.skip(p - 1)) =~= s.take(p) + seq![x] + s.skip(p));
    }
}

fn pair_order_exec(entries: &[UninstallEntry], a: (i128, usize), b: (i128, usize)) -> (r: i8)
    requires
        a.1 < entries@.len(),
        b.1 < entries@.len(),
    ensures
        r as int == pair_order(entries@, (a.0 as int, a.1 as int), (b.0 as int, b.1 as int)),
{
    if a.0 != b.0 {
        return if a.0 > b.0 { -1 } else { 1 };
    }
    let na_v = text::chars_of(entries[a.1].display_name.as_str());
    let na = text::lower_vec(&na_v);
    let nb_v = text::chars_of(entries[b.1].display_name.as_str());
    let nb = text::lower_vec(&nb_v);
    let o = seq_order_exec(&na, &nb);
    if o != 0 {
        return o;
    }
    let ta = text::chars_of(entries[a.1].token.as_str());
    let tb = text::chars_of(entries[b.1].token.as_str());
    seq_order_exec(&ta, &tb)
}

/// The pairs as the spec sees them.
pub open spec fn pair_views(v: Seq<(i128, usize)>) -> Seq<(int, int)> {
    v.map_values(|p: (i128, usize)| (p.0 as int, p.1 as int))
}

fn rank_entries(entries: &[UninstallEntry], q: &Vec<char>) -> (ranked: Vec<(i128, usize)>)
    ensures
        pair_views(ranked@) == ranked_entries(entries@, q@, entries@.len() as int),
        forall|k: int| 0 <= k < ranked@.len() ==> #[trigger] ranked@[k].1 < entries@.len(),
{
    let mut ranked: Vec<(i128, usize)> = Vec::new();
    let mut i: usize = 0;
    while i < entries.len()
        invariant
            i <= entries@.len(),
            pair_views(ranked@) == ranked_entries(entries@, q@, i as int),
            forall|k: int| 0 <= k < ranked@.len() ==> #[trigger] ranked@[k].1 < entries@.len(),
        decreases entries@.len() - i,
    {
        match uninstall_entry_score(&entries[i], q) {
            Some(sc) => {
                let x = (sc, i);
                let mut p: usize = 0;
                while p < ranked.len() && pair_order_exec(entries, ranked[p], x) <= 0
                    invariant
                        p <= ranked@.len(),
                        i < entries@.len(),
                        x == (sc, i),
                        forall|k: int| 0 <= k < ranked@.len() ==> #[trigger] ranked@[k].1 < entries@.len(),
                        forall|k: int| 0 <= k < p ==> pair_order(entries@, #[trigger] pair_views(ranked@)[k], (sc as int, i as int)) <= 0,
                    decreases ranked@.len() - p,
                {
                    proof {
                        assert(pair_views(ranked@)[p as int] == (ranked@[p as int].0 as int, ranked@[p as int].1 as int));
                    }
                    p = p + 1;
                }
                let ghost before = pair_views(ranked@);
                let ghost before_raw = ranked@;
                proof {
                    if p < ranked@.len() {
                        assert(before[p as int] == (ranked@[p as int].0 as int, ranked@[p as int].1 as int));
                    }
                    lemma_insert_at(entries@, before, (sc as int, i as int), p as int);
                }
                ranked.insert(p, x);
                proof {
                    assert(pair_views(ranked@) =~= before.take(p as int) + seq![(sc as int, i as int)] + before.skip(p as int));
                    assert forall|k: int| 0 <= k < ranked@.len() implies #[trigger] ranked@[k].1 < entries@.len() by {
                        if k < p {
                            assert(ranked@[k] == before_raw[k]);
                        } else if k > p {
                            assert(ranked@[k] == before_raw[k - 1]);
                        }
                    }
                }
            },
            None => {},
        }
        i = i + 1;
    }
    ranked
}

/// The id of the uninstall action for an entry.
pub open spec fn action_id_of(e: UninstallEntry) -> Seq<char> {
    "__swiftfind_action_uninstall__:"@ + e.token@
}

/// The title of the uninstall action for an entry.
pub open spec fn action_title_of(e: UninstallEntry) -> Seq<char> {
    "Uninstall "@ + text::trim(e.display_name@)
}

/// The subtitle of the uninstall action for an entry: its publisher, if any.
pub open spec fn action_subtitle_of(e: UninstallEntry) -> Seq<char> {
    let p = text::trim(e.publisher@);
    if p.len() == 0 { "Installed application"@ } else { p + " application"@ }
}

/// `item` is the uninstall action of `e`.
pub open spec fn is_action_for(item: SearchItem, e: UninstallEntry) -> bool {
    &&& item.id@ == action_id_of(e)
    &&& item.kind@ == "action"@
    &&& item.title@ == action_title_of(e)
    &&& item.path@ == action_subtitle_of(e)
    &&& item.use_count == 0
    &&& item.last_accessed_epoch_secs == 0
    &&& item.normalized_from_fields()
}

fn uninstall_entry_to_action(e: &UninstallEntry) -> (item: SearchItem)
    ensures
        is_action_for(item, *e),
{
    let id = text::concat(ACTION_UNINSTALL_PREFIX, e.token.as_str());
    let publisher = text::trim_str(e.publisher.as_str());
    let subtitle = if publisher.as_str().unicode_len() == 0 {
        text::owned("Installed application")
    } else {
        text::concat(publisher.as_str(), " application")
    };
    let name = text::trim_str(e.display_name.as_str());
    let title = text::concat("Uninstall ", name.as_str());
    SearchItem::new(id.as_str(), "action", title.as_str(), subtitle.as_str())
}

/// The result of ranking `entries` against `term`: at most `limit` uninstall
/// actions, best first.
pub open spec fn ranked_actions_match(
    out: Seq<SearchItem>,
    entries: Seq<UninstallEntry>,
    term: Seq<char>,
    limit: int,
) -> bool {
    let ranked = ranked_entries(entries, normalize(term), entries.len() as int);
    &&& out.len() == min_len(limit, ranked.len() as int)
    &&& forall|k: int| 0 <= k < out.len() ==> is_action_for(#[trigger] out[k], entries[ranked[k].1])
}

pub open spec fn min_len(a: int, b: int) -> int {
    if a <= b { a } else { b }
}

/// The uninstall actions for `term` ranked against the installed `entries`:
/// at most `limit` of them, best first.
pub fn search_uninstall_actions_with_entries(term: &str, limit: usize, entries: &[UninstallEntry]) -> (out: Vec<SearchItem>)
    ensures
        ranked_actions_match(out@, entries@, term@, limit as int),
{
    let tv = text::chars_of(term);
    let q = crate::model::normalize_chars(&tv);
    let ranked = rank_entries(entries, &q);
    let n = if limit <= ranked.len() { limit } else { ranked.len() };
    let mut out: Vec<SearchItem> = Vec::new();
    let mut k: usize = 0;
    while k < n
        invariant
            k <= n,
            n <= ranked@.len(),
            n == min_len(limit as int, ranked@.len() as int),
            out@.len() == k,
            forall|m: int| 0 <= m < ranked@.len() ==> #[trigger] ranked@[m].1 < entries@.len(),
            forall|m: int| 0 <= m < k ==> is_action_for(#[trigger] out@[m], entries@[ranked@[m].1 as int]),
        decreases n - k,
    {
        let item = uninstall_entry_to_action(&entries[ranked[k].1]);
        out.push(item);
        k = k + 1;
    }
    proof {
        let rv = ranked_entries(entries@, normalize(term@), entries@.len() as int);
        assert(pair_views(ranked@) == rv);
        assert forall|m: int| 0 <= m < out@.len() implies is_action_for(#[trigger] out@[m], entries@[rv[m].1]) by {
            assert(rv[m].1 == ranked@[m].1 as int);
        }
    }
    out
}

/// The uninstall actions for an uninstall query, ranked against the
/// installed `entries`; nothing for other queries or a zero limit.
pub fn search_uninstall_actions(query: &str, limit: usize, entries: &[UninstallEntry]) -> (out: Vec<SearchItem>)
    ensures
        match uninstall_search_term(query@) {
            Some(term) => if limit == 0 {
                out@.len() == 0
            } else {
                ranked_actions_match(out@, entries@, term, limit as int)
            },
            None => out@.len() == 0,
        },
{
    if limit == 0 {
        return Vec::new();
    }
    match extract_uninstall_search_term(query) {
        Some(term) => search_uninstall_actions_with_entries(term.as_str(), limit, entries),
        None => Vec::new(),
    }
}


// ---------------------------------------------------------------------------
// The uninstall command line
// ---------------------------------------------------------------------------

/// `u8::is_ascii_whitespace` on a character.
pub open spec fn is_ascii_ws(c: char) -> bool {
    c == ' ' || c == '\t' || c == '\n' || c == '\x0C' || c == '\r'
}

fn is_ascii_ws_exec(c: char) -> (b: bool)
    ensures
        b == is_ascii_ws(c),
{
    c == ' ' || c == '\t' || c == '\n' || c == '\x0C' || c == '\r'
}

/// A `/i` or `-i` install switch starts at character `j` of `c`, standing
/// alone (whitespace before, and whitespace, `{`, `"` or the end after).
pub open spec fn install_switch_at(c: Seq<char>, j: int) -> bool {
    &&& 0 <= j && j + 1 < c.len()
    &&& (c[j] == '/' || c[j] == '-')
    &&& (c[j + 1] == 'i' || c[j + 1] == 'I')
    &&& (j == 0 || is_ascii_ws(c[j - 1]))
    &&& (j + 2 >= c.len() || is_ascii_ws(c[j + 2]) || c[j + 2] == '{' || c[j + 2] == '"')
}

/// The first install switch at or after `j`.
pub open spec fn first_install_switch(c: Seq<char>, j: int) -> Option<int>
    decreases c.len() - j,
{
    if j < 0 || j + 1 >= c.len() {
        None
    } else if install_switch_at(c, j) {
        Some(j)
    } else {
        first_install_switch(c, j + 1)
    }
}

/// msiexec parameters with the first install switch turned into an
/// uninstall switch (`/I` becomes `/X`), unless they already uninstall.
pub open spec fn msiexec_uninstall_parameters(parameters: Seq<char>) -> Seq<char> {
    let t = text::trim(parameters);
    let lower = text::ascii_lower(t);
    if t.len() == 0 {
        Seq::empty()
    } else if text::contains(lower, "/x"@) || text::contains(lower, "-x"@) {
        t
    } else {
        match first_install_switch(t, 0) {
            Some(j) => t.update(j + 1, 'X'),
            None => t,
        }
    }
}

pub fn rewrite_msiexec_install_to_uninstall(parameters: &str) -> (out: String)
    ensures
        out@ == msiexec_uninstall_parameters(parameters@),
{
    let t = text::trimmed_chars(parameters);
    if t.len() == 0 {
        return String::new();
    }
    let lower = text::lower_vec(&t);
    let sx = text::chars_of("/x");
    let dx = text::chars_of("-x");
    if text::vec_contains(&lower, &sx) || text::vec_contains(&lower, &dx) {
        return text::string_of(&t);
    }
    if t.len() < 2 {
        proof {
            assert(first_install_switch(t@, 0) is None);
        }
        return text::string_of(&t);
    }
    let mut j: usize = 0;
    while j + 1 < t.len()
        invariant
            t@.len() >= 2,
            t@ == text::trim(parameters@),
            !text::contains(text::ascii_lower(t@), "/x"@),
            !text::contains(text::ascii_lower(t@), "-x"@),
            j + 1 <= t@.len(),
            first_install_switch(t@, 0) == first_install_switch(t@, j as int),
        decreases t@.len() - j,
    {
        let c = t[j];
        let n = t[j + 1];
        let prev_ok = j == 0 || is_ascii_ws_exec(t[j - 1]);
        let next_ok = j + 2 >= t.len() || is_ascii_ws_exec(t[j + 2]) || t[j + 2] == '{' || t[j + 2]
            == '"';
        if (c == '/' || c == '-') && (n == 'i' || n == 'I') && prev_ok && next_ok {
            let mut rewritten = t.clone();
            rewritten.set(j + 1, 'X');
            proof {
                assert(install_switch_at(t@, j as int));
                assert(rewritten@ =~= t@.update(j + 1, 'X'));
            }
            return text::string_of(&rewritten);
        }
        proof {
            assert(!install_switch_at(t@, j as int));
        }
        j = j + 1;
    }
    text::string_of(&t)
}

/// The program and its parameters in an uninstall command line: a quoted
/// program, or else the text up to the first whitespace.
pub open spec fn split_command(command: Seq<char>) -> Result<(Seq<char>, Seq<char>), Seq<char>> {
    let t = text::trim(command);
    let rest = t.drop_first();
    if t.len() == 0 {
        Err("uninstall command is empty"@)
    } else if t[0] == '"' && text::has_char(rest, '"') {
        let e = choose|e: int| 0 <= e < rest.len() && rest[e] == '"' && forall|k: int| 0 <= k < e ==> rest[k] != '"';
        let exe = text::trim(rest.take(e));
        if exe.len() == 0 {
            Err("uninstall command executable is empty"@)
        } else {
            Ok((exe, text::trim(rest.skip(e + 1))))
        }
    } else if exists|w: int| 0 <= w < t.len() && text::is_ws(#[trigger] t[w]) {
        let w = choose|w: int| 0 <= w < t.len() && text::is_ws(#[trigger] t[w]) && forall|k: int| 0 <= k < w ==> !text::is_ws(t[k]);
        let exe = text::trim(t.take(w));
        if exe.len() == 0 {
            Err("uninstall command executable is empty"@)
        } else {
            Ok((exe, text::trim(t.skip(w + 1))))
        }
    } else {
        Ok((t, Seq::empty()))
    }
}

#[verifier::rlimit(50)]
#[verifier::spinoff_prover]
pub fn split_uninstall_command(command: &str) -> (r: Result<(String, String), String>)
    ensures
        match r {
            Ok((exe, args)) => split_command(command@) == Ok::<(Seq<char>, Seq<char>), Seq<char>>((exe@, args@)),
            Err(e) => split_command(command@) == Err::<(Seq<char>, Seq<char>), Seq<char>>(e@),
        },
{
    let t = text::trimmed_chars(command);
    if t.len() == 0 {
        return Err(text::owned("uninstall command is empty"));
    }
    let ghost rest = t@.drop_first();
    if t[0] == '"' {
        let mut e: usize = 1;
        while e < t.len() && t[e] != '"'
            invariant
                1 <= e <= t@.len(),
                rest == t@.drop_first(),
                forall|k: int| 0 <= k < e - 1 ==> rest[k] != '"',
            decreases t@.len() - e,
        {
            e = e + 1;
        }
        if e < t.len() {
            proof {
                assert(rest[e - 1] == '"');
                assert(text::has_char(rest, '"'));
                let c = choose|c: int| 0 <= c < rest.len() && rest[c] == '"' && forall|k: int| 0 <= k < c ==> rest[k] != '"';
                assert(c == e - 1) by {
                    if c < e - 1 {
                        assert(rest[c] != '"');
                    }
                    if c > e - 1 {
                        assert(rest[e - 1] != '"');
                    }
                }
                assert(t@.subrange(1, e as int) =~= rest.take(e - 1));
                assert(t@.subrange((e + 1) as int, t@.len() as int) =~= rest.skip(e as int));
            }
            let (a, b) = text::trim_bounds(&t, 1, e);
            if a == b {
                return Err(text::owned("uninstall command executable is empty"));
            }
            let exe = text::string_of_range(&t, a, b);
            let (c, d) = text::trim_bounds(&t, e + 1, t.len());
            let args = text::string_of_range(&t, c, d);
            return Ok((exe, args));
        }
        proof {
            assert forall|k: int| 0 <= k < rest.len() implies rest[k] != '"' by {}
            assert(!text::has_char(rest, '"'));
        }
    }
    let mut w: usize = 0;
    while w < t.len() && !text::is_whitespace(t[w])
        invariant
            w <= t@.len(),
            forall|k: int| 0 <= k < w ==> !text::is_ws(#[trigger] t@[k]),
        decreases t@.len() - w,
    {
        w = w + 1;
    }
    if w < t.len() {
        proof {
            let c = choose|c: int| 0 <= c < t@.len() && text::is_ws(#[trigger] t@[c]) && forall|k: int| 0 <= k < c ==> !text::is_ws(t@[k]);
            assert(c == w) by {
                if c < w {
                    assert(!text::is_ws(t@[c]));
                }
                if c > w {
                    assert(!text::is_ws(t@[w as int]));
                }
            }
            assert(t@.subrange(0, w as int) =~= t@.take(w as int));
            assert(t@.subrange((w + 1) as int, t@.len() as int) =~= t@.skip(w + 1));
        }
        let (a, b) = text::trim_bounds(&t, 0, w);
        if a == b {
            return Err(text::owned("uninstall command executable is empty"));
        }
        let exe = text::string_of_range(&t, a, b);
        let (c, d) = text::trim_bounds(&t, w + 1, t.len());
        let args = text::string_of_range(&t, c, d);
        return Ok((exe, args));
    }
    Ok((text::string_of(&t), String::new()))
}

/// The last path segment of a program path, with either kind of slash.
pub open spec fn file_name_of(path: Seq<char>) -> Seq<char>
    decreases path.len(),
{
    if path.len() == 0 {
        Seq::empty()
    } else if path.last() == '\\' || path.last() == '/' {
        Seq::empty()
    } else {
        file_name_of(path.drop_last()).push(path.last())
    }
}

/// Whether the program is msiexec.
pub open spec fn is_msiexec(path: Seq<char>) -> bool {
    let f = file_name_of(path);
    text::eq_ic(f, "msiexec"@) || text::eq_ic(f, "msiexec.exe"@)
}

pub fn is_msiexec_program(executable: &str) -> (b: bool)
    ensures
        b == is_msiexec(executable@),
{
    let v = text::chars_of(executable);
    let mut start: usize = v.len();
    proof {
        assert(v@.take(v@.len() as int) =~= v@);
        assert(v@.skip(v@.len() as int) =~= Seq::<char>::empty());
        assert(file_name_of(v@) + Seq::<char>::empty() =~= file_name_of(v@));
    }
    while start > 0 && v[start - 1] != '\\' && v[start - 1] != '/'
        invariant
            start <= v@.len(),
            file_name_of(v@) == file_name_of(v@.take(start as int)) + v@.skip(start as int),
        decreases start,
    {
        proof {
            let p = v@.take(start as int);
            assert(p.drop_last() =~= v@.take(start - 1));
            assert(p.last() == v@[start - 1]);
            assert(v@.skip(start - 1) =~= seq![v@[start - 1]] + v@.skip(start as int));
            assert(file_name_of(v@.take(start - 1)) + v@.skip(start - 1) =~= file_name_of(v@.take(start - 1)).push(v@[start - 1]) + v@.skip(start as int));
        }
        start = start - 1;
    }
    proof {
        assert(v@.take(v@.len() as int) =~= v@);
        assert(v@.skip(v@.len() as int) =~= Seq::<char>::empty());
        let p = v@.take(start as int);
        if start > 0 {
            assert(p.last() == v@[start - 1]);
        }
        assert(file_name_of(p) =~= Seq::<char>::empty());
        assert(v@.subrange(start as int, v@.len() as int) =~= v@.skip(start as int));
    }
    let f = text::slice_vec(&v, start, v.len());
    let a = text::chars_of("msiexec");
    let b = text::chars_of("msiexec.exe");
    text::vec_eq_ic(&f, &a) || text::vec_eq_ic(&f, &b)
}

/// The parameters an uninstaller is started with, from the program and
/// parameters after environment expansion: an `msiexec` install switch
/// becomes an uninstall; blank parameters are left out.
pub open spec fn launch_parameters(program: Seq<char>, parameters: Seq<char>) -> Option<Seq<char>> {
    let p = if is_msiexec(program) {
        msiexec_uninstall_parameters(parameters)
    } else {
        parameters
    };
    if text::trim(p).len() == 0 {
        None
    } else {
        Some(p)
    }
}

pub fn uninstall_launch_parameters(program: &str, parameters: &str) -> (r: Option<String>)
    ensures
        crate::query_dsl::opt_string(r) == launch_parameters(program@, parameters@),
{
    let p = if is_msiexec_program(program) {
        rewrite_msiexec_install_to_uninstall(parameters)
    } else {
        text::owned(parameters)
    };
    if text::is_blank(p.as_str()) {
        None
    } else {
        Some(p)
    }
}

/// What the shell's answer to starting an uninstaller means: a code of 32 or
/// less is a failure.
pub fn uninstall_launch_result(display_name: &str, code: i64) -> (r: Result<(), String>)
    ensures
        code > 32 ==> r is Ok,
        code <= 32 ==> (r matches Err(e) && e@ == "failed to launch uninstall command for '"@ + display_name@
            + "' (code="@ + crate::clipboard_history::signed_decimal(code as int) + ")"@),
{
    if code > 32 {
        return Ok(());
    }
    let mut m = text::concat("failed to launch uninstall command for '", display_name);
    text::push_str(&mut m, "' (code=");
    let d = crate::clipboard_history::signed_decimal_text(code);
    text::push_str(&mut m, d.as_str());
    text::push_str(&mut m, ")");
    Err(m)
}

/// Windows updates and hotfixes are not offered for uninstall.
pub open spec fn is_update_entry(display_name: Seq<char>, release_type: Seq<char>) -> bool {
    let d = text::ascii_lower(display_name);
    let r = text::ascii_lower(release_type);
    text::contains(r, "update"@) || text::contains(r, "hotfix"@) || text::contains(r, "security"@)
        || text::starts_with(d, "update for "@) || text::starts_with(d, "security update for "@)
        || text::contains(d, "hotfix"@)
}

pub fn looks_like_update_entry(display_name: &str, release_type: &str) -> (b: bool)
    ensures
        b == is_update_entry(display_name@, release_type@),
{
    let dv = text::chars_of(display_name);
    let d = text::lower_vec(&dv);
    let rv = text::chars_of(release_type);
    let r = text::lower_vec(&rv);
    text::vec_contains(&r, &text::chars_of("update")) || text::vec_contains(&r, &text::chars_of("hotfix"))
        || text::vec_contains(&r, &text::chars_of("security")) || text::vec_starts_with(
        &d,
        &text::chars_of("update for "),
    ) || text::vec_starts_with(&d, &text::chars_of("security update for ")) || text::vec_contains(
        &d,
        &text::chars_of("hotfix"),
    )
}

/// The values of an application's uninstall registry key, as read; a value
/// that is missing is `None`.
#[derive(Debug, Clone, PartialEq, Eq, Default)]
pub struct UninstallKeyValues {
    pub display_name: Option<String>,
    pub publisher: Option<String>,
    pub quiet_uninstall_string: Option<String>,
    pub uninstall_string: Option<String>,
    pub release_type: Option<String>,
    pub parent_key_name: Option<String>,
    pub system_component: Option<u32>,
}

/// A text value, or the empty text when it is missing.
pub open spec fn value_or_empty(v: Option<String>) -> Seq<char> {
    match v {
        Some(s) => s@,
        None => Seq::empty(),
    }
}

/// The uninstall command of a key: the quiet one when there is one.
pub open spec fn uninstall_command_of(values: UninstallKeyValues) -> Seq<char> {
    match values.quiet_uninstall_string {
        Some(q) => q@,
        None => value_or_empty(values.uninstall_string),
    }
}

/// The entry a key gives, as (token, display name, publisher, command): it
/// needs a non-blank display name and uninstall command, and is left out
/// when it is a system component, a child of another entry, or an update.
pub open spec fn entry_from_values(hive_label: Seq<char>, subkey_name: Seq<char>, values: UninstallKeyValues) -> Option<
    (Seq<char>, Seq<char>, Seq<char>, Seq<char>),
> {
    match values.display_name {
        None => None,
        Some(display_name) => {
            let command = uninstall_command_of(values);
            if text::trim(display_name@).len() == 0 || text::trim(command).len() == 0 {
                None
            } else if values.system_component == Some(1u32) {
                None
            } else if text::trim(value_or_empty(values.parent_key_name)).len() != 0 {
                None
            } else if is_update_entry(display_name@, value_or_empty(values.release_type)) {
                None
            } else {
                Some(
                    (
                        hive_label + ":"@ + subkey_name,
                        text::trim(display_name@),
                        text::trim(value_or_empty(values.publisher)),
                        text::trim(command),
                    ),
                )
            }
        },
    }
}

fn owned_or_empty(v: &Option<String>) -> (out: String)
    ensures
        out@ == value_or_empty(*v),
{
    match v {
        Some(s) => text::owned(s.as_str()),
        None => String::new(),
    }
}

/// The entry an application's uninstall key gives, if it is offered.
pub fn uninstall_entry_from_values(hive_label: &str, subkey_name: &str, values: &UninstallKeyValues) -> (r: Option<
    UninstallEntry,
>)
    ensures
        match entry_from_values(hive_label@, subkey_name@, *values) {
            Some(f) => r matches Some(e) && e.token@ == f.0 && e.display_name@ == f.1 && e.publisher@ == f.2
                && e.uninstall_command@ == f.3,
            None => r is None,
        },
{
    let display_name = match &values.display_name {
        Some(d) => d,
        None => {
            return None;
        },
    };
    let command = match &values.quiet_uninstall_string {
        Some(q) => text::owned(q.as_str()),
        None => owned_or_empty(&values.uninstall_string),
    };
    if text::is_blank(display_name.as_str()) || text::is_blank(command.as_str()) {
        return None;
    }
    match values.system_component {
        Some(c) => {
            if c == 1 {
                return None;
            }
        },
        None => {},
    }
    let parent = owned_or_empty(&values.parent_key_name);
    if !text::is_blank(parent.as_str()) {
        return None;
    }
    let release_type = owned_or_empty(&values.release_type);
    if looks_like_update_entry(display_name.as_str(), release_type.as_str()) {
        return None;
    }
    let mut token = text::concat(hive_label, ":");
    text::push_str(&mut token, subkey_name);
    let publisher = owned_or_empty(&values.publisher);
    Some(
        UninstallEntry {
            token,
            display_name: text::trim_str(display_name.as_str()),
            publisher: text::trim_str(publisher.as_str()),
            uninstall_command: text::trim_str(command.as_str()),
        },
    )
}

/// The entry an uninstall action id names: the id must carry the uninstall
/// prefix, and the first entry with the rest as its token is the target.
pub open spec fn action_target(action_id: Seq<char>, entries: Seq<UninstallEntry>) -> Result<int, Seq<char>> {
    let prefix = "__swiftfind_action_uninstall__:"@;
    if !text::starts_with(action_id, prefix) {
        Err("invalid uninstall action id"@)
    } else if exists|i: int| 0 <= i < entries.len() && (#[trigger] entries[i]).token@ == action_id.skip(prefix.len() as int) {
        Ok(choose|i: int| 0 <= i < entries.len() && (#[trigger] entries[i]).token@ == action_id.skip(prefix.len() as int)
            && forall|k: int| 0 <= k < i ==> entries[k].token@ != action_id.skip(prefix.len() as int))
    } else {
        Err("uninstall target is no longer available"@)
    }
}

/// Finds the entry that an uninstall action id names among `entries`.
pub fn find_uninstall_target(action_id: &str, entries: &[UninstallEntry]) -> (r: Result<usize, String>)
    ensures
        match r {
            Ok(i) => action_target(action_id@, entries@) == Ok::<int, Seq<char>>(i as int),
            Err(e) => action_target(action_id@, entries@) == Err::<int, Seq<char>>(e@),
        },
{
    let id = text::chars_of(action_id);
    let prefix = text::chars_of(ACTION_UNINSTALL_PREFIX);
    if !text::vec_starts_with(&id, &prefix) {
        return Err(text::owned("invalid uninstall action id"));
    }
    let token = text::slice_vec(&id, prefix.len(), id.len());
    proof {
        assert(token@ =~= action_id@.skip(prefix@.len() as int));
        assert(ACTION_UNINSTALL_PREFIX@ == "__swiftfind_action_uninstall__:"@);
    }
    let mut i: usize = 0;
    while i < entries.len()
        invariant
            i <= entries@.len(),
            text::starts_with(action_id@, "__swiftfind_action_uninstall__:"@),
            token@ == action_id@.skip("__swiftfind_action_uninstall__:"@.len() as int),
            forall|k: int| 0 <= k < i ==> (#[trigger] entries@[k]).token@ != token@,
        decreases entries@.len() - i,
    {
        if text::vec_eq_str(&token, entries[i].token.as_str()) {
            proof {
                assert(entries@[i as int].token@ == token@);
                assert(0 <= i < entries@.len() && (entries@[i as int]).token@ == token@
                    && forall|k: int| 0 <= k < i ==> entries@[k].token@ != token@);
                let c = choose|c: int| 0 <= c < entries@.len() && (#[trigger] entries@[c]).token@ == token@
                    && forall|k: int| 0 <= k < c ==> entries@[k].token@ != token@;
                assert(c == i as int) by {
                    if c < i {
                        assert(entries@[c].token@ != token@);
                    }
                    if c > i {
                        assert(entries@[i as int].token@ == token@);
                    }
                }
            }
            return Ok(i);
        }
        i = i + 1;
    }
    Err(text::owned("uninstall target is no longer available"))
}

proof fn lemma_insert_ranked_keeps(entries: Seq<UninstallEntry>, s: Seq<(int, int)>, x: (int, int))
    ensures
        insert_ranked(entries, s, x).len() == s.len() + 1,
        insert_ranked(entries, s, x).contains(x),
        forall|y: (int, int)| s.contains(y) ==> #[trigger] insert_ranked(entries, s, x).contains(y),
    decreases s.len(),
{
    let r = insert_ranked(entries, s, x);
    if s.len() == 0 {
        assert(r[0] == x);
    } else if pair_order(entries, s[0], x) > 0 {
        assert(r[0] == x);
        assert forall|y: (int, int)| s.contains(y) implies #[trigger] r.contains(y) by {
            let k = choose|k: int| 0 <= k < s.len() && s[k] == y;
            assert(r[k + 1] == y);
        }
    } else {
        let t = s.drop_first();
        lemma_insert_ranked_keeps(entries, t, x);
        let rt = insert_ranked(entries, t, x);
        assert(r == seq![s[0]] + rt);
        let j = choose|j: int| 0 <= j < rt.len() && rt[j] == x;
        assert(r[j + 1] == x);
        assert forall|y: (int, int)| s.contains(y) implies #[trigger] r.contains(y) by {
            let k = choose|k: int| 0 <= k < s.len() && s[k] == y;
            if k == 0 {
                assert(r[0] == y);
            } else {
                assert(t[k - 1] == y);
                assert(t.contains(y));
                assert(insert_ranked(entries, t, x).contains(y));
                let m = choose|m: int| 0 <= m < rt.len() && rt[m] == y;
                assert(r[m + 1] == y);
            }
        }
    }
}

proof fn lemma_ranked_entries_hold_matches(entries: Seq<UninstallEntry>, q: Seq<char>, n: int, i: int)
    requires
        0 <= i < n <= entries.len(),
        entry_score(entries[i], q) is Some,
    ensures
        ranked_entries(entries, q, n).contains((entry_score(entries[i], q)->Some_0, i)),
        ranked_entries(entries, q, n).len() <= n,
    decreases n,
{
    let prev = ranked_entries(entries, q, n - 1);
    if i < n - 1 {
        lemma_ranked_entries_hold_matches(entries, q, n - 1, i);
    } else {
        lemma_ranked_entries_len(entries, q, n - 1);
    }
    match entry_score(entries[n - 1], q) {
        Some(sc) => {
            lemma_insert_ranked_keeps(entries, prev, (sc, n - 1));
        },
        None => {},
    }
}

proof fn lemma_ranked_entries_len(entries: Seq<UninstallEntry>, q: Seq<char>, n: int)
    ensures
        ranked_entries(entries, q, n).len() <= if n <= 0 { 0 } else { n },
    decreases n,
{
    if n > 0 {
        lemma_ranked_entries_len(entries, q, n - 1);
        match entry_score(entries[n - 1], q) {
            Some(sc) => {
                lemma_insert_ranked_keeps(entries, ranked_entries(entries, q, n - 1), (sc, n - 1));
            },
            None => {},
        }
    }
}

/// An installed program whose name or publisher (normalized) contains the
/// normalized search term is offered for uninstall, a publisher match even
/// when the name does not match: with room for every entry, the actions
/// include one for it.
pub proof fn law_publisher_matches_are_offered(
    out: Seq<SearchItem>,
    entries: Seq<UninstallEntry>,
    term: Seq<char>,
    limit: int,
    i: int,
)
    requires
        ranked_actions_match(out, entries, term, limit),
        limit >= entries.len(),
        0 <= i < entries.len(),
        normalize(term).len() > 0,
        text::contains(normalize(entries[i].display_name@), normalize(term)) || text::contains(
            normalize(entries[i].publisher@),
            normalize(term),
        ),
    ensures
        exists|k: int| 0 <= k < out.len() && is_action_for(#[trigger] out[k], entries[i]),
{
    let q = normalize(term);
    if text::contains(normalize(entries[i].display_name@), q) && !text::starts_with(normalize(entries[i].display_name@), q) {
        assert(normalize(entries[i].display_name@) != q) by {
            if normalize(entries[i].display_name@) == q {
                assert(q.subrange(0, q.len() as int) =~= q);
            }
        }
    }
    assert(entry_score(entries[i], q) is Some);
    let n = entries.len() as int;
    lemma_ranked_entries_hold_matches(entries, q, n, i);
    let ranked = ranked_entries(entries, q, n);
    let k = choose|k: int| 0 <= k < ranked.len() && ranked[k] == (entry_score(entries[i], q)->Some_0, i);
    assert(out.len() == ranked.len());
    assert(is_action_for(out[k], entries[ranked[k].1]));
}

} // verus!
