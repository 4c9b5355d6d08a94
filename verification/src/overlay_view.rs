//! The rows the overlay list shows for a set of results: section headers, the
//! top hit, the other results grouped by kind, and a short subtitle for each.
use vstd::prelude::*;

use crate::model::SearchItem;
use crate::query_dsl::{join, join_chars};
use crate::search::{kind_is, views};
use crate::settings::{split_chars, split_on};
use crate::text;
use crate::uninstall_registry::ACTION_UNINSTALL_PREFIX;

verus! {

// ---------------------------------------------------------------------------
// Subtitles
// ---------------------------------------------------------------------------

/// `s` with every `/` turned into `\`.
pub open spec fn backslashed(s: Seq<char>) -> Seq<char> {
    s.map_values(|c: char| if c == '/' { '\\' } else { c })
}

/// The pieces of `p` that are not empty, in order.
pub open spec fn non_empty_parts(p: Seq<Seq<char>>) -> Seq<Seq<char>>
    decreases p.len(),
{
    if p.len() == 0 {
        Seq::empty()
    } else if p.last().len() > 0 {
        non_empty_parts(p.drop_last()).push(p.last())
    } else {
        non_empty_parts(p.drop_last())
    }
}

/// The last three path components joined with `\`, behind `...\` when some
/// were left out.
pub open spec fn path_tail(parts: Seq<Seq<char>>) -> Seq<char> {
    let k: int = if parts.len() < 3 {
        parts.len() as int
    } else {
        3
    };
    let tail = join(parts.skip(parts.len() - k), seq!['\\']);
    if parts.len() > 3 {
        "...\\"@ + tail
    } else {
        tail
    }
}

/// A path as a subtitle: trimmed; a URL as it is; otherwise with `\` as the
/// separator, without a drive, and only its last three components.
pub open spec fn abbreviated_path(path: Seq<char>) -> Seq<char> {
    let t = text::trim(path);
    if t.len() == 0 {
        Seq::empty()
    } else if text::contains(t, "://"@) {
        t
    } else {
        let normalized = backslashed(t);
        let parts = non_empty_parts(split_on(normalized, '\\'));
        if parts.len() == 0 {
            normalized
        } else {
            let rest = if text::ends_with(parts[0], seq![':']) {
                parts.drop_first()
            } else {
                parts
            };
            if rest.len() == 0 {
                Seq::empty()
            } else {
                path_tail(rest)
            }
        }
    }
}

pub(crate) fn backslash_vec(v: &Vec<char>) -> (out: Vec<char>)
    ensures
        out@ == backslashed(v@),
{
    let mut out: Vec<char> = Vec::new();
    let mut i: usize = 0;
    while i < v.len()
        invariant
            i <= v.len(),
            out@ == backslashed(v@.take(i as int)),
        decreases v.len() - i,
    {
        let c = v[i];
        if c == '/' {
            out.push('\\');
        } else {
            out.push(c);
        }
        proof {
            assert(backslashed(v@.take((i + 1) as int)) =~= backslashed(v@.take(i as int)).push(
                if c == '/' {
                    '\\'
                } else {
                    c
                },
            ));
        }
        i = i + 1;
    }
    proof {
        assert(v@.take(v.len() as int) =~= v@);
    }
    out
}

fn non_empty_vecs(p: &Vec<Vec<char>>) -> (out: Vec<Vec<char>>)
    ensures
        views(out@) == non_empty_parts(views(p@)),
{
    let mut out: Vec<Vec<char>> = Vec::new();
    let mut i: usize = 0;
    while i < p.len()
        invariant
            i <= p.len(),
            views(out@) == non_empty_parts(views(p@).take(i as int)),
        decreases p.len() - i,
    {
        let ghost before = views(out@);
        let piece = &p[i];
        proof {
            let t = views(p@).take((i + 1) as int);
            assert(t.drop_last() =~= views(p@).take(i as int));
            assert(t.last() == piece@);
        }
        if piece.len() > 0 {
            let copy = text::slice_vec(piece, 0, piece.len());
            proof {
                assert(copy@ =~= piece@);
            }
            out.push(copy);
            proof {
                assert(views(out@) =~= before.push(piece@));
            }
        }
        i = i + 1;
    }
    proof {
        assert(views(p@).take(p.len() as int) =~= views(p@));
    }
    out
}

/// Shortens a path for display under a result's title.
pub fn abbreviate_path(path: &str) -> (out: String)
    ensures
        out@ == abbreviated_path(path@),
{
    let t = text::trimmed_chars(path);
    if t.len() == 0 {
        return String::new();
    }
    let scheme = text::chars_of("://");
    if text::vec_contains(&t, &scheme) {
        return text::string_of(&t);
    }
    let normalized = backslash_vec(&t);
    let pieces = split_chars(&normalized, '\\');
    let parts = non_empty_vecs(&pieces);
    if parts.len() == 0 {
        return text::string_of(&normalized);
    }
    let colon: Vec<char> = vec![':'];
    let start: usize = if text::vec_ends_with(&parts[0], &colon) {
        1
    } else {
        0
    };
    proof {
        assert(colon@ =~= seq![':']);
        assert(views(parts@)[0] == parts@[0]@);
    }
    let n = parts.len() - start;
    if n == 0 {
        return String::new();
    }
    let k: usize = if n < 3 {
        n
    } else {
        3
    };
    let first = parts.len() - k;
    let mut tail_parts: Vec<Vec<char>> = Vec::new();
    let mut i: usize = first;
    while i < parts.len()
        invariant
            first <= i <= parts.len(),
            first == parts.len() - k,
            views(tail_parts@) == views(parts@).subrange(first as int, i as int),
        decreases parts.len() - i,
    {
        let piece = &parts[i];
        let copy = text::slice_vec(piece, 0, piece.len());
        let ghost before = views(tail_parts@);
        tail_parts.push(copy);
        proof {
            assert(copy@ =~= piece@);
            assert(views(tail_parts@) =~= before.push(piece@));
            assert(views(parts@).subrange(first as int, (i + 1) as int) =~= views(parts@).subrange(
                first as int,
                i as int,
            ).push(views(parts@)[i as int]));
        }
        i = i + 1;
    }
    let tail = join_chars(&tail_parts, '\\');
    let mut out = String::new();
    if n > 3 {
        text::push_str(&mut out, "...\\");
    }
    let tail_s = text::string_of(&tail);
    text::push_str(&mut out, tail_s.as_str());
    proof {
        let ps = views(parts@);
        let rest = if start == 1 {
            ps.drop_first()
        } else {
            ps
        };
        assert(rest.len() == n);
        assert(rest.skip(rest.len() - k) =~= ps.subrange(first as int, ps.len() as int));
        assert(out@ =~= path_tail(rest));
    }
    out
}

/// The text under a result's title: nothing for apps and for command-mode
/// actions other than uninstalls, an action's own text (or a generic label),
/// and the shortened path of anything else.
pub open spec fn subtitle(item: SearchItem, command_mode: bool) -> Seq<char> {
    if command_mode && kind_is(item.kind@, "action"@) && !text::starts_with(
        item.id@,
        "__swiftfind_action_uninstall__:"@,
    ) {
        Seq::empty()
    } else if kind_is(item.kind@, "app"@) {
        Seq::empty()
    } else if kind_is(item.kind@, "action"@) {
        if text::trim(item.path@).len() == 0 {
            "SwiftFind action"@
        } else {
            text::trim(item.path@)
        }
    } else {
        abbreviated_path(item.path@)
    }
}

pub fn overlay_subtitle(item: &SearchItem, command_mode: bool) -> (out: String)
    ensures
        out@ == subtitle(*item, command_mode),
{
    proof {
        reveal_strlit("__swiftfind_action_uninstall__:");
    }
    assert(ACTION_UNINSTALL_PREFIX@ == "__swiftfind_action_uninstall__:"@);
    let is_action = text::eq_ignore_ascii_case(item.kind.as_str(), "action");
    if command_mode && is_action && !text::str_starts_with(item.id.as_str(), ACTION_UNINSTALL_PREFIX) {
        return String::new();
    }
    if text::eq_ignore_ascii_case(item.kind.as_str(), "app") {
        return String::new();
    }
    if is_action {
        let p = text::trim_str(item.path.as_str());
        if p.as_str().unicode_len() == 0 {
            return text::owned("SwiftFind action");
        }
        return p;
    }
    abbreviate_path(item.path.as_str())
}

// ---------------------------------------------------------------------------
// Rows
// ---------------------------------------------------------------------------

/// What a row of the overlay list is.
#[derive(Debug, Clone, Copy, PartialEq, Eq, Structural)]
pub enum OverlayRowRole {
    Header,
    TopHit,
    Item,
    Status,
}

/// A row of the overlay list; `result_index` is the result it shows (as an
/// `i32`), or -1.
#[derive(Debug, Clone, PartialEq, Eq)]
pub struct OverlayRow {
    pub role: OverlayRowRole,
    pub result_index: i32,
    pub kind: String,
    pub title: String,
    pub path: String,
    pub icon_path: String,
}

/// What a row stands for: a section header with its title, or a result by
/// its index with the role it is shown in.
pub enum RowSlot {
    Header(Seq<char>),
    Result(int, OverlayRowRole),
}

pub open spec fn header_row(r: OverlayRow, title: Seq<char>) -> bool {
    &&& r.role == OverlayRowRole::Header
    &&& r.result_index == -1
    &&& r.kind@ == "section"@
    &&& r.title@ == title
    &&& r.path@.len() == 0
    &&& r.icon_path@.len() == 0
}

pub open spec fn result_row_for(r: OverlayRow, item: SearchItem, index: int, role: OverlayRowRole, command_mode: bool) -> bool {
    &&& r.role == role
    &&& r.result_index == index as i32
    &&& r.kind@ == item.kind@
    &&& r.title@ == item.title@
    &&& r.path@ == subtitle(item, command_mode)
    &&& r.icon_path@ == item.path@
}

pub open spec fn row_fills(r: OverlayRow, slot: RowSlot, results: Seq<SearchItem>, command_mode: bool) -> bool {
    match slot {
        RowSlot::Header(t) => header_row(r, t),
        RowSlot::Result(i, role) => 0 <= i < results.len() && result_row_for(r, results[i], i, role, command_mode),
    }
}

/// `rows[start..]` shows `slots`, one row for each.
pub open spec fn rows_fill_from(
    rows: Seq<OverlayRow>,
    start: int,
    slots: Seq<RowSlot>,
    results: Seq<SearchItem>,
    command_mode: bool,
) -> bool {
    &&& rows.len() == start + slots.len()
    &&& forall|j: int| 0 <= j < slots.len() ==> row_fills(#[trigger] rows[start + j], slots[j], results, command_mode)
}

/// The group a result is listed under: applications, files and folders,
/// actions, clipboard entries, anything else.
pub open spec fn group_of(kind: Seq<char>) -> int {
    if kind_is(kind, "app"@) {
        0
    } else if kind_is(kind, "file"@) || kind_is(kind, "folder"@) {
        1
    } else if kind_is(kind, "action"@) {
        2
    } else if kind_is(kind, "clipboard"@) {
        3
    } else {
        4
    }
}

/// The indices in `1..n` of the results in group `g`, in order.
pub open spec fn group_indices(results: Seq<SearchItem>, g: int, n: int) -> Seq<int>
    decreases n,
{
    if n <= 1 {
        Seq::empty()
    } else {
        let prev = group_indices(results, g, n - 1);
        if group_of(results[n - 1].kind@) == g {
            prev.push(n - 1)
        } else {
            prev
        }
    }
}

/// One item row for each of `indices`.
pub open spec fn item_slots(indices: Seq<int>) -> Seq<RowSlot> {
    indices.map_values(|i: int| RowSlot::Result(i, OverlayRowRole::Item))
}

/// One item row for each result index below `n`.
pub open spec fn all_item_slots(n: nat) -> Seq<RowSlot> {
    Seq::new(n, |i: int| RowSlot::Result(i, OverlayRowRole::Item))
}

/// A group's rows: nothing when it is empty, else its header and its results.
pub open spec fn group_slots(header: Seq<char>, indices: Seq<int>) -> Seq<RowSlot> {
    if indices.len() == 0 {
        Seq::empty()
    } else {
        seq![RowSlot::Header(header)] + item_slots(indices)
    }
}

/// The overlay list for `results`: in command mode a "Commands" header over
/// every result; otherwise the first result as the top hit, then the rest
/// grouped under "Applications", "Files", "Actions", "Clipboard" and "Other".
pub open spec fn row_layout(results: Seq<SearchItem>, command_mode: bool) -> Seq<RowSlot> {
    let n = results.len() as int;
    if n == 0 {
        Seq::empty()
    } else if command_mode {
        seq![RowSlot::Header("Commands"@)] + all_item_slots(n as nat)
    } else {
        seq![RowSlot::Header("Top Hit"@), RowSlot::Result(0, OverlayRowRole::TopHit)] + group_slots(
            "Applications"@,
            group_indices(results, 0, n),
        ) + group_slots("Files"@, group_indices(results, 1, n)) + group_slots(
            "Actions"@,
            group_indices(results, 2, n),
        ) + group_slots("Clipboard"@, group_indices(results, 3, n)) + group_slots(
            "Other"@,
            group_indices(results, 4, n),
        )
    }
}

pub fn section_header_row(title: &str) -> (r: OverlayRow)
    ensures
        header_row(r, title@),
{
    proof {
        reveal_strlit("section");
    }
    OverlayRow {
        role: OverlayRowRole::Header,
        result_index: -1,
        kind: text::owned("section"),
        title: text::owned(title),
        path: String::new(),
        icon_path: String::new(),
    }
}

pub fn result_row(item: &SearchItem, result_index: usize, role: OverlayRowRole, command_mode: bool) -> (r: OverlayRow)
    ensures
        result_row_for(r, *item, result_index as int, role, command_mode),
{
    OverlayRow {
        role,
        result_index: result_index as i32,
        kind: text::owned(item.kind.as_str()),
        title: text::owned(item.title.as_str()),
        path: overlay_subtitle(item, command_mode),
        icon_path: text::owned(item.path.as_str()),
    }
}

/// The single row that shows a status message in place of results.
pub fn status_row(message: &str) -> (r: OverlayRow)
    ensures
        r.role == OverlayRowRole::Status,
        r.result_index == -1,
        r.kind@ == "status"@,
        r.title@ == message@,
        r.path@.len() == 0,
        r.icon_path@.len() == 0,
{
    proof {
        reveal_strlit("status");
    }
    OverlayRow {
        role: OverlayRowRole::Status,
        result_index: -1,
        kind: text::owned("status"),
        title: text::owned(message),
        path: String::new(),
        icon_path: String::new(),
    }
}

pub fn group_code(kind: &str) -> (g: u8)
    ensures
        g == group_of(kind@),
{
    if text::eq_ignore_ascii_case(kind, "app") {
        0
    } else if text::eq_ignore_ascii_case(kind, "file") || text::eq_ignore_ascii_case(kind, "folder") {
        1
    } else if text::eq_ignore_ascii_case(kind, "action") {
        2
    } else if text::eq_ignore_ascii_case(kind, "clipboard") {
        3
    } else {
        4
    }
}

pub open spec fn index_ints(v: Seq<usize>) -> Seq<int> {
    v.map_values(|x: usize| x as int)
}

proof fn lemma_fill_concat(
    rows: Seq<OverlayRow>,
    old_len: int,
    s1: Seq<RowSlot>,
    s2: Seq<RowSlot>,
    results: Seq<SearchItem>,
    command_mode: bool,
)
    requires
        old_len == s1.len(),
        rows_fill_from(rows.take(old_len), 0, s1, results, command_mode),
        rows_fill_from(rows, old_len, s2, results, command_mode),
    ensures
        rows_fill_from(rows, 0, s1 + s2, results, command_mode),
{
    let s = s1 + s2;
    assert forall|j: int| 0 <= j < s.len() implies row_fills(#[trigger] rows[0 + j], s[j], results, command_mode) by {
        if j < old_len {
            assert(rows.take(old_len)[0 + j] == rows[j]);
        } else {
            let k = j - old_len;
            assert(rows[old_len + k] == rows[0 + j]);
            assert(s[j] == s2[k]);
        }
    }
}

/// Appends a group's rows: its header and one row per index, or nothing.
fn append_group_rows(
    rows: &mut Vec<OverlayRow>,
    header: &str,
    indices: &Vec<usize>,
    results: &[SearchItem],
    command_mode: bool,
)
    requires
        forall|k: int| 0 <= k < indices@.len() ==> #[trigger] indices@[k] < results@.len(),
    ensures
        final(rows)@.take(old(rows)@.len() as int) == old(rows)@,
        rows_fill_from(final(rows)@, old(rows)@.len() as int, group_slots(header@, index_ints(indices@)), results@, command_mode),
{
    let ghost start = rows@.len() as int;
    if indices.len() == 0 {
        proof {
            assert(rows@.take(start) =~= rows@);
        }
        return;
    }
    rows.push(section_header_row(header));
    let mut k: usize = 0;
    while k < indices.len()
        invariant
            k <= indices@.len(),
            forall|m: int| 0 <= m < indices@.len() ==> #[trigger] indices@[m] < results@.len(),
            rows@.len() == start + 1 + k,
            rows@.take(start) == old(rows)@,
            old(rows)@.len() == start,
            header_row(rows@[start], header@),
            forall|m: int|
                0 <= m < k ==> result_row_for(
                    #[trigger] rows@[start + 1 + m],
                    results@[indices@[m] as int],
                    indices@[m] as int,
                    OverlayRowRole::Item,
                    command_mode,
                ),
        decreases indices@.len() - k,
    {
        let idx = indices[k];
        let row = result_row(&results[idx], idx, OverlayRowRole::Item, command_mode);
        let ghost before = rows@;
        rows.push(row);
        proof {
            assert(rows@.take(start) =~= before.take(start));
            assert forall|m: int| 0 <= m < k + 1 implies result_row_for(
                #[trigger] rows@[start + 1 + m],
                results@[indices@[m] as int],
                indices@[m] as int,
                OverlayRowRole::Item,
                command_mode,
            ) by {
                if m < k {
                    assert(rows@[start + 1 + m] == before[start + 1 + m]);
                }
            }
        }
        k = k + 1;
    }
    proof {
        let slots = group_slots(header@, index_ints(indices@));
        assert forall|j: int| 0 <= j < slots.len() implies row_fills(#[trigger] rows@[start + j], slots[j], results@, command_mode) by {
            if j > 0 {
                let m = j - 1;
                assert(slots[j] == RowSlot::Result(indices@[m] as int, OverlayRowRole::Item));
                assert(rows@[start + j] == rows@[start + 1 + m]);
            }
        }
    }
}

/// The rows of the overlay list for `results`, as `row_layout` arranges them.
pub fn overlay_rows(results: &[SearchItem], command_mode: bool) -> (rows: Vec<OverlayRow>)
    ensures
        rows_fill_from(rows@, 0, row_layout(results@, command_mode), results@, command_mode),
{
    let mut rows: Vec<OverlayRow> = Vec::new();
    let n = results.len();
    if n == 0 {
        return rows;
    }
    if command_mode {
        rows.push(section_header_row("Commands"));
        let mut i: usize = 0;
        while i < n
            invariant
                n == results@.len(),
                i <= n,
                rows@.len() == 1 + i,
                header_row(rows@[0], "Commands"@),
                forall|m: int|
                    0 <= m < i ==> result_row_for(
                        #[trigger] rows@[1 + m],
                        results@[m],
                        m,
                        OverlayRowRole::Item,
                        command_mode,
                    ),
            decreases n - i,
        {
            let row = result_row(&results[i], i, OverlayRowRole::Item, command_mode);
            let ghost before = rows@;
            rows.push(row);
            proof {
                assert forall|m: int| 0 <= m < i + 1 implies result_row_for(
                    #[trigger] rows@[1 + m],
                    results@[m],
                    m,
                    OverlayRowRole::Item,
                    command_mode,
                ) by {
                    if m < i {
                        assert(rows@[1 + m] == before[1 + m]);
                    }
                }
            }
            i = i + 1;
        }
        proof {
            let slots = row_layout(results@, command_mode);
            assert forall|j: int| 0 <= j < slots.len() implies row_fills(#[trigger] rows@[0 + j], slots[j], results@, command_mode) by {
                if j > 0 {
                    assert(rows@[0 + j] == rows@[1 + (j - 1)]);
                }
            }
        }
        return rows;
    }
    rows.push(section_header_row("Top Hit"));
    rows.push(result_row(&results[0], 0, OverlayRowRole::TopHit, command_mode));
    let mut apps: Vec<usize> = Vec::new();
    let mut files: Vec<usize> = Vec::new();
    let mut actions: Vec<usize> = Vec::new();
    let mut clips: Vec<usize> = Vec::new();
    let mut others: Vec<usize> = Vec::new();
    let mut i: usize = 1;
    while i < n
        invariant
            n == results@.len(),
            1 <= i <= n,
            index_ints(apps@) == group_indices(results@, 0, i as int),
            index_ints(files@) == group_indices(results@, 1, i as int),
            index_ints(actions@) == group_indices(results@, 2, i as int),
            index_ints(clips@) == group_indices(results@, 3, i as int),
            index_ints(others@) == group_indices(results@, 4, i as int),
            forall|k: int| 0 <= k < apps@.len() ==> #[trigger] apps@[k] < n,
            forall|k: int| 0 <= k < files@.len() ==> #[trigger] files@[k] < n,
            forall|k: int| 0 <= k < actions@.len() ==> #[trigger] actions@[k] < n,
            forall|k: int| 0 <= k < clips@.len() ==> #[trigger] clips@[k] < n,
            forall|k: int| 0 <= k < others@.len() ==> #[trigger] others@[k] < n,
        decreases n - i,
    {
        let g = group_code(results[i].kind.as_str());
        if g == 0 {
            apps.push(i);
        } else if g == 1 {
            files.push(i);
        } else if g == 2 {
            actions.push(i);
        } else if g == 3 {
            clips.push(i);
        } else {
            others.push(i);
        }
        proof {
            assert(index_ints(apps@) =~= group_indices(results@, 0, (i + 1) as int));
            assert(index_ints(files@) =~= group_indices(results@, 1, (i + 1) as int));
            assert(index_ints(actions@) =~= group_indices(results@, 2, (i + 1) as int));
            assert(index_ints(clips@) =~= group_indices(results@, 3, (i + 1) as int));
            assert(index_ints(others@) =~= group_indices(results@, 4, (i + 1) as int));
        }
        i = i + 1;
    }
    let ghost head = seq![RowSlot::Header("Top Hit"@), RowSlot::Result(0, OverlayRowRole::TopHit)];
    proof {
        assert(rows_fill_from(rows@.take(0), 0, Seq::<RowSlot>::empty(), results@, command_mode));
        assert forall|j: int| 0 <= j < head.len() implies row_fills(#[trigger] rows@[0 + j], head[j], results@, command_mode) by {}
    }
    let ghost s1 = head;
    let ghost len1 = rows@.len() as int;
    append_group_rows(&mut rows, "Applications", &apps, results, command_mode);
    proof {
        lemma_fill_concat(rows@, len1, s1, group_slots("Applications"@, index_ints(apps@)), results@, command_mode);
    }
    let ghost s2 = s1 + group_slots("Applications"@, index_ints(apps@));
    let ghost len2 = rows@.len() as int;
    append_group_rows(&mut rows, "Files", &files, results, command_mode);
    proof {
        lemma_fill_concat(rows@, len2, s2, group_slots("Files"@, index_ints(files@)), results@, command_mode);
    }
    let ghost s3 = s2 + group_slots("Files"@, index_ints(files@));
    let ghost len3 = rows@.len() as int;
    append_group_rows(&mut rows, "Actions", &actions, results, command_mode);
    proof {
        lemma_fill_concat(rows@, len3, s3, group_slots("Actions"@, index_ints(actions@)), results@, command_mode);
    }
    let ghost s4 = s3 + group_slots("Actions"@, index_ints(actions@));
    let ghost len4 = rows@.len() as int;
    append_group_rows(&mut rows, "Clipboard", &clips, results, command_mode);
    proof {
        lemma_fill_concat(rows@, len4, s4, group_slots("Clipboard"@, index_ints(clips@)), results@, command_mode);
    }
    let ghost s5 = s4 + group_slots("Clipboard"@, index_ints(clips@));
    let ghost len5 = rows@.len() as int;
    append_group_rows(&mut rows, "Other", &others, results, command_mode);
    proof {
        lemma_fill_concat(rows@, len5, s5, group_slots("Other"@, index_ints(others@)), results@, command_mode);
        assert(s5 + group_slots("Other"@, index_ints(others@)) == row_layout(results@, command_mode));
    }
    rows
}

// ---------------------------------------------------------------------------
// Each result is listed once
// ---------------------------------------------------------------------------

/// Whether a slot shows result `i`.
pub open spec fn shows(slot: RowSlot, i: int) -> bool {
    slot matches RowSlot::Result(k, _) && k == i
}

/// How many of `slots` show result `i`.
pub open spec fn rows_showing(slots: Seq<RowSlot>, i: int) -> nat
    decreases slots.len(),
{
    if slots.len() == 0 {
        0
    } else {
        rows_showing(slots.drop_last(), i) + if shows(slots.last(), i) {
            1nat
        } else {
            0nat
        }
    }
}

/// How many times `i` occurs in `s`.
pub open spec fn occurrences(s: Seq<int>, i: int) -> nat
    decreases s.len(),
{
    if s.len() == 0 {
        0
    } else {
        occurrences(s.drop_last(), i) + if s.last() == i {
            1nat
        } else {
            0nat
        }
    }
}

proof fn lemma_rows_showing_add(a: Seq<RowSlot>, b: Seq<RowSlot>, i: int)
    ensures
        rows_showing(a + b, i) == rows_showing(a, i) + rows_showing(b, i),
    decreases b.len(),
{
    if b.len() == 0 {
        assert(a + b =~= a);
    } else {
        lemma_rows_showing_add(a, b.drop_last(), i);
        assert((a + b).drop_last() =~= a + b.drop_last());
        assert((a + b).last() == b.last());
    }
}

proof fn lemma_rows_showing_items(idx: Seq<int>, i: int)
    ensures
        rows_showing(item_slots(idx), i) == occurrences(idx, i),
    decreases idx.len(),
{
    if idx.len() > 0 {
        lemma_rows_showing_items(idx.drop_last(), i);
        assert(item_slots(idx).drop_last() =~= item_slots(idx.drop_last()));
    }
}

proof fn lemma_group_slots_showing(header: Seq<char>, idx: Seq<int>, i: int)
    ensures
        rows_showing(group_slots(header, idx), i) == occurrences(idx, i),
{
    lemma_rows_showing_items(idx, i);
    if idx.len() > 0 {
        lemma_rows_showing_add(seq![RowSlot::Header(header)], item_slots(idx), i);
        assert(seq![RowSlot::Header(header)].drop_last() =~= Seq::<RowSlot>::empty());
        assert(rows_showing(Seq::<RowSlot>::empty(), i) == 0);
        assert(rows_showing(seq![RowSlot::Header(header)], i) == 0);
    }
}

proof fn lemma_group_indices_occurrences(results: Seq<SearchItem>, g: int, n: int, i: int)
    requires
        n <= results.len(),
    ensures
        occurrences(group_indices(results, g, n), i) == if 1 <= i < n && group_of(results[i].kind@) == g {
            1nat
        } else {
            0nat
        },
    decreases n,
{
    if n > 1 {
        lemma_group_indices_occurrences(results, g, n - 1, i);
        let prev = group_indices(results, g, n - 1);
        if group_of(results[n - 1].kind@) == g {
            assert(prev.push(n - 1).drop_last() =~= prev);
        }
    }
}

proof fn lemma_all_items_showing(n: nat, i: int)
    requires
        0 <= i < n,
    ensures
        rows_showing(all_item_slots(n), i) == 1,
    decreases n,
{
    assert(all_item_slots(n).drop_last() =~= all_item_slots((n - 1) as nat));
    if i < n - 1 {
        lemma_all_items_showing((n - 1) as nat, i);
    } else {
        lemma_no_item_showing((n - 1) as nat, i);
    }
}

proof fn lemma_no_item_showing(n: nat, i: int)
    requires
        i >= n,
    ensures
        rows_showing(all_item_slots(n), i) == 0,
    decreases n,
{
    if n > 0 {
        assert(all_item_slots(n).drop_last() =~= all_item_slots((n - 1) as nat));
        lemma_no_item_showing((n - 1) as nat, i);
    }
}

/// Every result gets exactly one row in the overlay list, in either mode.
pub proof fn law_each_result_shown_once(results: Seq<SearchItem>, command_mode: bool, i: int)
    requires
        0 <= i < results.len(),
    ensures
        rows_showing(row_layout(results, command_mode), i) == 1,
{
    let n = results.len() as int;
    let h = seq![RowSlot::Header("Commands"@)];
    assert(h.drop_last() =~= Seq::<RowSlot>::empty());
    assert(rows_showing(Seq::<RowSlot>::empty(), i) == 0);
    assert(rows_showing(h, i) == 0);
    if command_mode {
        lemma_rows_showing_add(h, all_item_slots(n as nat), i);
        lemma_all_items_showing(n as nat, i);
    } else {
        let head = seq![RowSlot::Header("Top Hit"@), RowSlot::Result(0, OverlayRowRole::TopHit)];
        assert(head.drop_last() =~= seq![RowSlot::Header("Top Hit"@)]);
        assert(head.drop_last().drop_last() =~= Seq::<RowSlot>::empty());
        assert(rows_showing(head.drop_last(), i) == 0);
        assert(rows_showing(head, i) == if i == 0 {
            1nat
        } else {
            0nat
        });
        let g0 = group_slots("Applications"@, group_indices(results, 0, n));
        let g1 = group_slots("Files"@, group_indices(results, 1, n));
        let g2 = group_slots("Actions"@, group_indices(results, 2, n));
        let g3 = group_slots("Clipboard"@, group_indices(results, 3, n));
        let g4 = group_slots("Other"@, group_indices(results, 4, n));
        lemma_rows_showing_add(head, g0, i);
        lemma_rows_showing_add(head + g0, g1, i);
        lemma_rows_showing_add(head + g0 + g1, g2, i);
        lemma_rows_showing_add(head + g0 + g1 + g2, g3, i);
        lemma_rows_showing_add(head + g0 + g1 + g2 + g3, g4, i);
        lemma_group_slots_showing("Applications"@, group_indices(results, 0, n), i);
        lemma_group_slots_showing("Files"@, group_indices(results, 1, n), i);
        lemma_group_slots_showing("Actions"@, group_indices(results, 2, n), i);
        lemma_group_slots_showing("Clipboard"@, group_indices(results, 3, n), i);
        lemma_group_slots_showing("Other"@, group_indices(results, 4, n), i);
        lemma_group_indices_occurrences(results, 0, n, i);
        lemma_group_indices_occurrences(results, 1, n, i);
        lemma_group_indices_occurrences(results, 2, n, i);
        lemma_group_indices_occurrences(results, 3, n, i);
        lemma_group_indices_occurrences(results, 4, n, i);
    }
}

} // verus!
