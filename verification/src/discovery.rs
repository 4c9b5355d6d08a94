//! Discovery providers: where indexed items come from, and the rules that
//! decide which discovered paths are kept.
use vstd::prelude::*;

use crate::model::SearchItem;
use crate::overlay_view::{backslash_vec, backslashed};
use crate::model::normalize;
use crate::settings::decimal;
use crate::search::{first_char_from, lemma_seq_order_antisym, lemma_seq_order_trans, seq_order, seq_order_exec, views};
use vstd::relations::sorted_by;
use crate::text;

verus! {

broadcast use {vstd::multiset::group_multiset_axioms, vstd::seq_lib::group_to_multiset_ensures};

/// A provider failed to discover.
#[derive(Debug, Clone, PartialEq, Eq)]
pub struct ProviderError {
    message: String,
}

impl ProviderError {
    pub closed spec fn text(self) -> Seq<char> {
        self.message@
    }

    pub fn new(message: String) -> (e: Self)
        ensures
            e.text() == message@,
    {
        ProviderError { message }
    }

    /// The message, as shown to a user.
    pub fn message(&self) -> (m: String)
        ensures
            m@ == self.text(),
    {
        text::owned(self.message.as_str())
    }
}

/// A source of index entries.
pub trait DiscoveryProvider {
    fn provider_name(&self) -> &'static str;

    fn discover(&self) -> Result<Vec<SearchItem>, ProviderError>;

    fn change_stamp(&self) -> Option<String> {
        None
    }
}

fn copy_items(items: &Vec<SearchItem>) -> (out: Vec<SearchItem>)
    ensures
        out@ == items@,
{
    let mut out: Vec<SearchItem> = Vec::new();
    let mut i: usize = 0;
    while i < items.len()
        invariant
            i <= items@.len(),
            out@ == items@.take(i as int),
        decreases items@.len() - i,
    {
        out.push(items[i].clone());
        proof {
            assert(items@.take((i + 1) as int) =~= items@.take(i as int).push(items@[i as int]));
        }
        i = i + 1;
    }
    proof {
        assert(items@.take(items@.len() as int) =~= items@);
    }
    out
}

/// A fixed list of apps.
pub struct AppProvider {
    apps: Vec<SearchItem>,
}

impl AppProvider {
    pub closed spec fn items(self) -> Seq<SearchItem> {
        self.apps@
    }

    pub fn from_apps(apps: Vec<SearchItem>) -> (p: Self)
        ensures
            p.items() == apps@,
    {
        AppProvider { apps }
    }

    /// Two well-known apps, always the same.
    pub fn deterministic_fixture() -> (p: Self)
        ensures
            p.items().len() == 2,
            p.items()[0].built_from(
                "app-code"@,
                "app"@,
                "Visual Studio Code"@,
                "C:\\Program Files\\Microsoft VS Code\\Code.exe"@,
            ),
            p.items()[1].built_from(
                "app-term"@,
                "app"@,
                "Windows Terminal"@,
                "C:\\Program Files\\WindowsApps\\Terminal.exe"@,
            ),
    {
        let mut apps: Vec<SearchItem> = Vec::new();
        apps.push(SearchItem::new("app-code", "app", "Visual Studio Code", "C:\\Program Files\\Microsoft VS Code\\Code.exe"));
        apps.push(SearchItem::new("app-term", "app", "Windows Terminal", "C:\\Program Files\\WindowsApps\\Terminal.exe"));
        AppProvider { apps }
    }
}

impl DiscoveryProvider for AppProvider {
    fn provider_name(&self) -> (n: &'static str)
        ensures
            n@ == "app"@,
    {
        "app"
    }

    fn discover(&self) -> (r: Result<Vec<SearchItem>, ProviderError>)
        ensures
            r matches Ok(v) && v@ == self.items(),
    {
        Ok(copy_items(&self.apps))
    }
}

/// A fixed list of files.
pub struct FileProvider {
    files: Vec<SearchItem>,
}

impl FileProvider {
    pub closed spec fn items(self) -> Seq<SearchItem> {
        self.files@
    }

    pub fn from_files(files: Vec<SearchItem>) -> (p: Self)
        ensures
            p.items() == files@,
    {
        FileProvider { files }
    }

    /// Two well-known documents, always the same.
    pub fn deterministic_fixture() -> (p: Self)
        ensures
            p.items().len() == 2,
            p.items()[0].built_from(
                "file-report"@,
                "file"@,
                "Q4_Report.xlsx"@,
                "C:\\Users\\Admin\\Documents\\Q4_Report.xlsx"@,
            ),
            p.items()[1].built_from(
                "file-notes"@,
                "file"@,
                "Meeting Notes.txt"@,
                "C:\\Users\\Admin\\Documents\\Meeting Notes.txt"@,
            ),
    {
        let mut files: Vec<SearchItem> = Vec::new();
        files.push(SearchItem::new("file-report", "file", "Q4_Report.xlsx", "C:\\Users\\Admin\\Documents\\Q4_Report.xlsx"));
        files.push(SearchItem::new("file-notes", "file", "Meeting Notes.txt", "C:\\Users\\Admin\\Documents\\Meeting Notes.txt"));
        FileProvider { files }
    }
}

impl DiscoveryProvider for FileProvider {
    fn provider_name(&self) -> (n: &'static str)
        ensures
            n@ == "file"@,
    {
        "file"
    }

    fn discover(&self) -> (r: Result<Vec<SearchItem>, ProviderError>)
        ensures
            r matches Ok(v) && v@ == self.items(),
    {
        Ok(copy_items(&self.files))
    }
}

/// Apps found in Start-menu folders. The folders are read by the caller;
/// off Windows, and with no roots, it discovers nothing.
pub struct StartMenuAppDiscoveryProvider {
    roots: Vec<String>,
}

impl Default for StartMenuAppDiscoveryProvider {
    fn default() -> (p: Self)
        ensures
            p.root_paths().len() == 0,
    {
        StartMenuAppDiscoveryProvider { roots: Vec::new() }
    }
}

impl StartMenuAppDiscoveryProvider {
    pub closed spec fn root_paths(self) -> Seq<String> {
        self.roots@
    }

    pub fn with_roots(roots: Vec<String>) -> (p: Self)
        ensures
            p.root_paths() == roots@,
    {
        StartMenuAppDiscoveryProvider { roots }
    }
}

impl DiscoveryProvider for StartMenuAppDiscoveryProvider {
    fn provider_name(&self) -> (n: &'static str)
        ensures
            n@ == "start-menu-apps"@,
    {
        "start-menu-apps"
    }

    fn discover(&self) -> (r: Result<Vec<SearchItem>, ProviderError>)
        ensures
            r matches Ok(v) && v@.len() == 0,
    {
        Ok(Vec::new())
    }
}

/// Files and folders under the configured roots.
pub struct FileSystemDiscoveryProvider {
    pub roots: Vec<String>,
    pub excluded_roots: Vec<String>,
    pub max_depth: usize,
    pub windows_search_enabled: bool,
    pub windows_search_fallback_filesystem: bool,
    pub show_files: bool,
    pub show_folders: bool,
}

impl FileSystemDiscoveryProvider {
    /// Roots walked to `max_depth`, Windows Search preferred with a walk as
    /// fallback, files and folders shown.
    pub fn new(roots: Vec<String>, max_depth: usize, excluded_roots: Vec<String>) -> (p: Self)
        ensures
            p.roots == roots,
            p.excluded_roots == excluded_roots,
            p.max_depth == max_depth,
            p.windows_search_enabled,
            p.windows_search_fallback_filesystem,
            p.show_files,
            p.show_folders,
    {
        Self::with_options(roots, max_depth, excluded_roots, true, true, true, true)
    }

    pub fn with_windows_search_options(
        roots: Vec<String>,
        max_depth: usize,
        excluded_roots: Vec<String>,
        windows_search_enabled: bool,
        windows_search_fallback_filesystem: bool,
    ) -> (p: Self)
        ensures
            p.roots == roots,
            p.excluded_roots == excluded_roots,
            p.max_depth == max_depth,
            p.windows_search_enabled == windows_search_enabled,
            p.windows_search_fallback_filesystem == windows_search_fallback_filesystem,
            p.show_files,
            p.show_folders,
    {
        Self::with_options(
            roots,
            max_depth,
            excluded_roots,
            windows_search_enabled,
            windows_search_fallback_filesystem,
            true,
            true,
        )
    }

    pub fn with_options(
        roots: Vec<String>,
        max_depth: usize,
        excluded_roots: Vec<String>,
        windows_search_enabled: bool,
        windows_search_fallback_filesystem: bool,
        show_files: bool,
        show_folders: bool,
    ) -> (p: Self)
        ensures
            p.roots == roots,
            p.excluded_roots == excluded_roots,
            p.max_depth == max_depth,
            p.windows_search_enabled == windows_search_enabled,
            p.windows_search_fallback_filesystem == windows_search_fallback_filesystem,
            p.show_files == show_files,
            p.show_folders == show_folders,
    {
        FileSystemDiscoveryProvider {
            roots,
            excluded_roots,
            max_depth,
            windows_search_enabled,
            windows_search_fallback_filesystem,
            show_files,
            show_folders,
        }
    }

    pub fn provider_name(&self) -> (n: &'static str)
        ensures
            n@ == "filesystem"@,
    {
        "filesystem"
    }
}

/// The item a walked entry gives: a folder (other than the root itself) when
/// folders are shown, a file when files are shown, nothing else. The item is
/// named by the entry's file name (its path when it has none) and its id is
/// `folder:<path>` or `file:<path>`.
pub open spec fn walk_item(
    path: Seq<char>,
    file_name: Option<Seq<char>>,
    is_dir: bool,
    is_file: bool,
    is_root: bool,
    show_files: bool,
    show_folders: bool,
) -> Option<(Seq<char>, Seq<char>, Seq<char>, Seq<char>)> {
    let name = match file_name {
        Some(n) => n,
        None => path,
    };
    if is_dir {
        if !show_folders || is_root {
            None
        } else {
            Some(("folder:"@ + path, "folder"@, name, path))
        }
    } else if !is_file || !show_files {
        None
    } else {
        Some(("file:"@ + path, "file"@, name, path))
    }
}

pub fn walk_entry_item(
    path: &str,
    file_name: Option<&str>,
    is_dir: bool,
    is_file: bool,
    is_root: bool,
    show_files: bool,
    show_folders: bool,
) -> (r: Option<SearchItem>)
    ensures
        match walk_item(
            path@,
            match file_name {
                Some(n) => Some(n@),
                None => None,
            },
            is_dir,
            is_file,
            is_root,
            show_files,
            show_folders,
        ) {
            Some(f) => r matches Some(item) && crate::plugin_sdk::item_has_fields(item, f),
            None => r is None,
        },
{
    let name = match file_name {
        Some(n) => n,
        None => path,
    };
    if is_dir {
        if !show_folders || is_root {
            return None;
        }
        let id = text::concat("folder:", path);
        return Some(SearchItem::new(id.as_str(), "folder", name, path));
    }
    if !is_file || !show_files {
        return None;
    }
    let id = text::concat("file:", path);
    Some(SearchItem::new(id.as_str(), "file", name, path))
}

// ---------------------------------------------------------------------------
// Path rules
// ---------------------------------------------------------------------------

/// A path as compared for exclusion: backslashes only, no trailing
/// separator, trimmed, ASCII-lowercased; `None` when nothing is left.
pub open spec fn compare_key(path: Seq<char>) -> Option<Seq<char>> {
    let slashes = path.map_values(|c: char| if c == '/' { '\\' } else { c });
    let v = text::ascii_lower(text::trim(crate::runtime::strip_trailing(slashes, '\\')));
    if v.len() == 0 { None } else { Some(v) }
}

pub fn normalize_path_for_compare(path: &str) -> (r: Option<Vec<char>>)
    ensures
        match r {
            Some(v) => compare_key(path@) == Some(v@),
            None => compare_key(path@) is None,
        },
{
    let v = text::chars_of(path);
    let mut s: Vec<char> = Vec::new();
    let mut i: usize = 0;
    while i < v.len()
        invariant
            i <= v@.len(),
            s@ == v@.take(i as int).map_values(|c: char| if c == '/' { '\\' } else { c }),
        decreases v@.len() - i,
    {
        let c = v[i];
        s.push(if c == '/' { '\\' } else { c });
        proof {
            assert(v@.take((i + 1) as int).map_values(|c: char| if c == '/' { '\\' } else { c })
                =~= v@.take(i as int).map_values(|c: char| if c == '/' { '\\' } else { c }).push(
                if c == '/' { '\\' } else { c },
            ));
        }
        i = i + 1;
    }
    proof {
        assert(v@.take(v@.len() as int) =~= v@);
    }
    let stripped = crate::runtime::strip_trailing_vec(&s, '\\');
    let t = text::trim_vec(&stripped);
    let l = text::lower_vec(&t);
    if l.len() == 0 {
        None
    } else {
        Some(l)
    }
}

/// A path lies under an excluded root: it is the root, or the root followed
/// by a separator.
pub open spec fn under_excluded(path: Seq<char>, roots: Seq<Seq<char>>) -> bool {
    match compare_key(path) {
        None => false,
        Some(p) => exists|i: int|
            0 <= i < roots.len() && (p == #[trigger] roots[i] || (text::starts_with(p, roots[i]) && p.len()
                > roots[i].len() && p[roots[i].len() as int] == '\\')),
    }
}

pub fn is_path_under_any_excluded_root(path: &str, excluded_roots: &Vec<Vec<char>>) -> (b: bool)
    ensures
        b == under_excluded(path@, crate::search::views(excluded_roots@)),
{
    let p = match normalize_path_for_compare(path) {
        Some(p) => p,
        None => {
            return false;
        },
    };
    let ghost rv = crate::search::views(excluded_roots@);
    let mut i: usize = 0;
    while i < excluded_roots.len()
        invariant
            i <= excluded_roots@.len(),
            rv == crate::search::views(excluded_roots@),
            compare_key(path@) == Some(p@),
            forall|k: int| 0 <= k < i ==> !(p@ == #[trigger] rv[k] || (text::starts_with(p@, rv[k]) && p@.len()
                > rv[k].len() && p@[rv[k].len() as int] == '\\')),
        decreases excluded_roots@.len() - i,
    {
        let r = &excluded_roots[i];
        proof {
            assert(rv[i as int] == r@);
        }
        if text::vec_eq(&p, r) {
            return true;
        }
        if text::vec_starts_with(&p, r) && p.len() > r.len() && p[r.len()] == '\\' {
            return true;
        }
        i = i + 1;
    }
    false
}

// ---------------------------------------------------------------------------
// Windows sources: what the shell's answers give
// ---------------------------------------------------------------------------

/// A path as an id: trimmed, with `\` separators, ASCII-lowercased.
pub open spec fn id_path(path: Seq<char>) -> Seq<char> {
    text::ascii_lower(backslashed(text::trim(path)))
}

pub fn normalize_id_path(path: &str) -> (out: String)
    ensures
        out@ == id_path(path@),
{
    let t = text::trimmed_chars(path);
    let b = backslash_vec(&t);
    let l = text::lower_vec(&b);
    text::string_of(&l)
}

/// A Start menu title that names documentation or samples rather than an
/// application.
pub open spec fn documentation_like_title(title: Seq<char>) -> bool {
    let lower = text::ascii_lower(text::trim(title));
    let has_docs = text::contains(lower, "documentation"@) || text::contains(lower, " docs"@);
    let has_sample = text::contains(lower, "sample"@);
    let has_app_word = text::contains(lower, " app"@) || text::contains(lower, "apps"@);
    let has_platform = text::contains(lower, "uwp"@) || text::contains(lower, "desktop"@) || text::contains(
        lower,
        "winui"@,
    ) || text::contains(lower, "windows sdk"@);
    lower.len() > 0 && ((has_docs && has_app_word) || (has_sample && (has_app_word || has_platform)))
}

pub fn is_documentation_like_start_entry_title(title: &str) -> (b: bool)
    ensures
        b == documentation_like_title(title@),
{
    let t = text::trimmed_chars(title);
    let lower = text::lower_vec(&t);
    if lower.len() == 0 {
        return false;
    }
    let has_docs = text::vec_contains(&lower, &text::chars_of("documentation")) || text::vec_contains(
        &lower,
        &text::chars_of(" docs"),
    );
    let has_sample = text::vec_contains(&lower, &text::chars_of("sample"));
    let has_app_word = text::vec_contains(&lower, &text::chars_of(" app")) || text::vec_contains(
        &lower,
        &text::chars_of("apps"),
    );
    let has_platform = text::vec_contains(&lower, &text::chars_of("uwp")) || text::vec_contains(
        &lower,
        &text::chars_of("desktop"),
    ) || text::vec_contains(&lower, &text::chars_of("winui")) || text::vec_contains(
        &lower,
        &text::chars_of("windows sdk"),
    );
    (has_docs && has_app_word) || (has_sample && (has_app_word || has_platform))
}

fn char_index(v: &Vec<char>, c: char, from: usize) -> (r: Option<usize>)
    requires
        from <= v.len(),
    ensures
        match r {
            Some(i) => i == first_char_from(v@, c, from as int) && from <= i < v.len(),
            None => first_char_from(v@, c, from as int) == -1,
        },
{
    let mut k = from;
    while k < v.len()
        invariant
            from <= k <= v.len(),
            first_char_from(v@, c, from as int) == first_char_from(v@, c, k as int),
        decreases v.len() - k,
    {
        if v[k] == c {
            return Some(k);
        }
        k = k + 1;
    }
    None
}

/// The Start menu application a line of `Get-StartApps` output names: the
/// trimmed name and application id on either side of the first tab, both
/// non-empty, the name not documentation-like.
pub open spec fn start_app_of_line(line: Seq<char>) -> Option<(Seq<char>, Seq<char>)> {
    let i = first_char_from(line, '\t', 0);
    if i < 0 {
        None
    } else {
        let title = text::trim(line.take(i));
        let app_id = text::trim(line.skip(i + 1));
        if title.len() == 0 || app_id.len() == 0 || documentation_like_title(title) {
            None
        } else {
            Some((title, app_id))
        }
    }
}

/// The item of a Start menu application: `app:<path>` with the path
/// `shell:AppsFolder\<app id>`.
pub open spec fn start_app_fields(title: Seq<char>, app_id: Seq<char>) -> (Seq<char>, Seq<char>, Seq<char>, Seq<char>) {
    let path = "shell:AppsFolder\\"@ + app_id;
    ("app:"@ + id_path(path), "app"@, title, path)
}

/// The applications the lines name, in order.
pub open spec fn start_apps(lines: Seq<Seq<char>>) -> Seq<(Seq<char>, Seq<char>, Seq<char>, Seq<char>)>
    decreases lines.len(),
{
    if lines.len() == 0 {
        Seq::empty()
    } else {
        let prev = start_apps(lines.drop_last());
        match start_app_of_line(lines.last()) {
            Some((title, app_id)) => prev.push(start_app_fields(title, app_id)),
            None => prev,
        }
    }
}

/// The items that `Get-StartApps` output names, one per usable line.
pub fn start_apps_from_output(output: &str) -> (items: Vec<SearchItem>)
    ensures
        items@.len() == start_apps(crate::runtime::text_lines(output@)).len(),
        forall|k: int|
            0 <= k < items@.len() ==> crate::plugin_sdk::item_has_fields(
                #[trigger] items@[k],
                start_apps(crate::runtime::text_lines(output@))[k],
            ),
{
    let lines = crate::runtime::lines_of(output);
    let ghost ls = views(lines@);
    let mut items: Vec<SearchItem> = Vec::new();
    let mut n: usize = 0;
    while n < lines.len()
        invariant
            n <= lines@.len(),
            ls == views(lines@),
            items@.len() == start_apps(ls.take(n as int)).len(),
            forall|k: int|
                0 <= k < items@.len() ==> crate::plugin_sdk::item_has_fields(
                    #[trigger] items@[k],
                    start_apps(ls.take(n as int))[k],
                ),
        decreases lines@.len() - n,
    {
        let line = &lines[n];
        proof {
            assert(ls.take((n + 1) as int).drop_last() =~= ls.take(n as int));
            assert(ls.take((n + 1) as int).last() == line@);
        }
        match char_index(line, '\t', 0) {
            Some(i) => {
                let name = text::slice_vec(line, 0, i);
                let rest = text::slice_vec(line, i + 1, line.len());
                let title = text::trim_vec(&name);
                let app_id = text::trim_vec(&rest);
                proof {
                    assert(name@ =~= line@.take(i as int));
                    assert(rest@ =~= line@.skip(i + 1));
                }
                if title.len() > 0 && app_id.len() > 0 {
                    let title_s = text::string_of(&title);
                    if !is_documentation_like_start_entry_title(title_s.as_str()) {
                        let app_id_s = text::string_of(&app_id);
                        let path = text::concat("shell:AppsFolder\\", app_id_s.as_str());
                        let key = normalize_id_path(path.as_str());
                        let id = text::concat("app:", key.as_str());
                        let item = SearchItem::new(id.as_str(), "app", title_s.as_str(), path.as_str());
                        let ghost before = items@;
                        items.push(item);
                        proof {
                            assert forall|k: int| 0 <= k < items@.len() implies crate::plugin_sdk::item_has_fields(
                                #[trigger] items@[k],
                                start_apps(ls.take((n + 1) as int))[k],
                            ) by {
                                if k < before.len() {
                                    assert(items@[k] == before[k]);
                                }
                            }
                        }
                    }
                }
            },
            None => {},
        }
        n = n + 1;
    }
    proof {
        assert(ls.take(lines@.len() as int) =~= ls);
    }
    items
}

/// A line of Windows Search output: kind, name and path separated by the
/// first two tabs (the path may hold more).
pub open spec fn search_line_parts(line: Seq<char>) -> Option<(Seq<char>, Seq<char>, Seq<char>)> {
    let i = first_char_from(line, '\t', 0);
    if i < 0 {
        None
    } else {
        let j = first_char_from(line, '\t', i + 1);
        if j < 0 {
            None
        } else {
            Some((line.take(i), line.subrange(i + 1, j), line.skip(j + 1)))
        }
    }
}

/// The item a line of Windows Search output names: a file or folder of a
/// kind that is shown, with a non-empty trimmed path, named by its trimmed
/// name (or its path), with the id `<kind>:<id path>`.
pub open spec fn search_line_item(line: Seq<char>, show_files: bool, show_folders: bool) -> Option<
    (Seq<char>, Seq<char>, Seq<char>, Seq<char>),
> {
    match search_line_parts(line) {
        None => None,
        Some((kind_raw, title_raw, path_raw)) => {
            let kind = text::ascii_lower(text::trim(kind_raw));
            let path = text::trim(path_raw);
            let title = text::trim(title_raw);
            if kind != "file"@ && kind != "folder"@ {
                None
            } else if kind == "file"@ && !show_files {
                None
            } else if kind == "folder"@ && !show_folders {
                None
            } else if path.len() == 0 {
                None
            } else {
                Some((kind + ":"@ + id_path(path), kind, if title.len() == 0 { path } else { title }, path))
            }
        },
    }
}

/// Whether some item among `items` has the id `id`.
pub open spec fn has_id(items: Seq<(Seq<char>, Seq<char>, Seq<char>, Seq<char>)>, id: Seq<char>) -> bool {
    exists|k: int| 0 <= k < items.len() && (#[trigger] items[k]).0 == id
}

/// The items the lines name, each id once, the first line with it kept.
pub open spec fn search_items(lines: Seq<Seq<char>>, show_files: bool, show_folders: bool) -> Seq<
    (Seq<char>, Seq<char>, Seq<char>, Seq<char>),
>
    decreases lines.len(),
{
    if lines.len() == 0 {
        Seq::empty()
    } else {
        let prev = search_items(lines.drop_last(), show_files, show_folders);
        match search_line_item(lines.last(), show_files, show_folders) {
            Some(f) => if has_id(prev, f.0) {
                prev
            } else {
                prev.push(f)
            },
            None => prev,
        }
    }
}

/// The items of Windows Search output, one per id.
pub fn windows_search_items_from_output(output: &str, show_files: bool, show_folders: bool) -> (items: Vec<
    SearchItem,
>)
    ensures
        items@.len() == search_items(crate::runtime::text_lines(output@), show_files, show_folders).len(),
        forall|k: int|
            0 <= k < items@.len() ==> crate::plugin_sdk::item_has_fields(
                #[trigger] items@[k],
                search_items(crate::runtime::text_lines(output@), show_files, show_folders)[k],
            ),
{
    let lines = crate::runtime::lines_of(output);
    let ghost ls = views(lines@);
    let mut items: Vec<SearchItem> = Vec::new();
    let mut n: usize = 0;
    while n < lines.len()
        invariant
            n <= lines@.len(),
            ls == views(lines@),
            items@.len() == search_items(ls.take(n as int), show_files, show_folders).len(),
            forall|k: int|
                0 <= k < items@.len() ==> crate::plugin_sdk::item_has_fields(
                    #[trigger] items@[k],
                    search_items(ls.take(n as int), show_files, show_folders)[k],
                ),
        decreases lines@.len() - n,
    {
        let line = &lines[n];
        let ghost prev = search_items(ls.take(n as int), show_files, show_folders);
        proof {
            assert(ls.take((n + 1) as int).drop_last() =~= ls.take(n as int));
            assert(ls.take((n + 1) as int).last() == line@);
        }
        match line_item(line, show_files, show_folders) {
            Some(item) => {
                let mut seen = false;
                let mut k: usize = 0;
                while k < items.len()
                    invariant
                        k <= items@.len(),
                        items@.len() == prev.len(),
                        forall|m: int|
                            0 <= m < items@.len() ==> crate::plugin_sdk::item_has_fields(#[trigger] items@[m], prev[m]),
                        seen <==> exists|m: int| 0 <= m < k && (#[trigger] prev[m]).0 == item.id@,
                    decreases items@.len() - k,
                {
                    if text::str_eq(items[k].id.as_str(), item.id.as_str()) {
                        seen = true;
                    }
                    proof {
                        assert(crate::plugin_sdk::item_has_fields(items@[k as int], prev[k as int]));
                        if !seen {
                            assert forall|m: int| 0 <= m < k + 1 implies (#[trigger] prev[m]).0 != item.id@ by {
                                if m == k {
                                } else {
                                }
                            }
                        }
                    }
                    k = k + 1;
                }
                proof {
                    let f = search_line_item(line@, show_files, show_folders)->0;
                    assert(f.0 == item.id@);
                    assert(seen == has_id(prev, f.0));
                }
                if !seen {
                    let ghost before = items@;
                    items.push(item);
                    proof {
                        assert forall|m: int| 0 <= m < items@.len() implies crate::plugin_sdk::item_has_fields(
                            #[trigger] items@[m],
                            search_items(ls.take((n + 1) as int), show_files, show_folders)[m],
                        ) by {
                            if m < before.len() {
                                assert(items@[m] == before[m]);
                            }
                        }
                    }
                }
            },
            None => {},
        }
        n = n + 1;
    }
    proof {
        assert(ls.take(lines@.len() as int) =~= ls);
    }
    items
}

fn line_item(line: &Vec<char>, show_files: bool, show_folders: bool) -> (r: Option<SearchItem>)
    ensures
        match search_line_item(line@, show_files, show_folders) {
            Some(f) => r matches Some(item) && crate::plugin_sdk::item_has_fields(item, f),
            None => r is None,
        },
{
    let i = match char_index(line, '\t', 0) {
        Some(i) => i,
        None => {
            return None;
        },
    };
    let j = match char_index(line, '\t', i + 1) {
        Some(j) => j,
        None => {
            return None;
        },
    };
    let kind_raw = text::slice_vec(line, 0, i);
    let title_raw = text::slice_vec(line, i + 1, j);
    let path_raw = text::slice_vec(line, j + 1, line.len());
    proof {
        assert(kind_raw@ =~= line@.take(i as int));
        assert(path_raw@ =~= line@.skip(j + 1));
    }
    let kind_t = text::trim_vec(&kind_raw);
    let kind = text::lower_vec(&kind_t);
    let is_file = text::vec_eq_str(&kind, "file");
    let is_folder = text::vec_eq_str(&kind, "folder");
    if !is_file && !is_folder {
        return None;
    }
    if is_file && !show_files {
        return None;
    }
    if is_folder && !show_folders {
        return None;
    }
    let path = text::trim_vec(&path_raw);
    if path.len() == 0 {
        return None;
    }
    let title = text::trim_vec(&title_raw);
    let path_s = text::string_of(&path);
    let title_s = if title.len() == 0 {
        text::string_of(&path)
    } else {
        text::string_of(&title)
    };
    let kind_s = text::string_of(&kind);
    let key = normalize_id_path(path_s.as_str());
    let mut id = text::concat(kind_s.as_str(), ":");
    text::push_str(&mut id, key.as_str());
    Some(SearchItem::new(id.as_str(), kind_s.as_str(), title_s.as_str(), path_s.as_str()))
}

/// `s` without leading or trailing copies of `c` (`str::trim_matches`).
pub open spec fn strip_both(s: Seq<char>, c: char) -> Seq<char> {
    crate::runtime::strip_trailing(text::strip_leading(s, c), c)
}

/// A shortcut target that is a web address rather than a program.
pub open spec fn web_target(raw: Seq<char>) -> bool {
    let lowered = text::ascii_lower(strip_both(text::trim(raw), '"'));
    lowered.len() > 0 && (text::starts_with(lowered, "http://"@) || text::starts_with(lowered, "https://"@)
        || text::starts_with(lowered, "microsoft-edge:"@) || text::starts_with(lowered, "msedge:"@)
        || text::starts_with(lowered, "www."@) || text::contains(lowered, "://"@))
}

pub fn shortcut_resolves_to_web_target(raw: &str) -> (b: bool)
    ensures
        b == web_target(raw@),
{
    let t = text::trimmed_chars(raw);
    let a = text::strip_leading_vec(&t, '"');
    let q = crate::runtime::strip_trailing_vec(&a, '"');
    let lowered = text::lower_vec(&q);
    if lowered.len() == 0 {
        return false;
    }
    text::vec_starts_with(&lowered, &text::chars_of("http://")) || text::vec_starts_with(
        &lowered,
        &text::chars_of("https://"),
    ) || text::vec_starts_with(&lowered, &text::chars_of("microsoft-edge:")) || text::vec_starts_with(
        &lowered,
        &text::chars_of("msedge:"),
    ) || text::vec_starts_with(&lowered, &text::chars_of("www.")) || text::vec_contains(
        &lowered,
        &text::chars_of("://"),
    )
}

/// A resolved shortcut target as a path: trimmed, without surrounding
/// quotes or a leading `@`, trimmed again.
pub open spec fn shortcut_target_path(raw: Seq<char>) -> Seq<char> {
    text::trim(text::strip_leading(strip_both(text::trim(raw), '"'), '@'))
}

pub fn normalize_shortcut_target_path(raw: &str) -> (out: String)
    ensures
        out@ == shortcut_target_path(raw@),
{
    let t = text::trimmed_chars(raw);
    let a = text::strip_leading_vec(&t, '"');
    let q = crate::runtime::strip_trailing_vec(&a, '"');
    let at = text::strip_leading_vec(&q, '@');
    let out = text::trim_vec(&at);
    text::string_of(&out)
}

/// What a Start menu shortcut's resolved target says about it.
#[derive(Debug, Clone, PartialEq, Eq)]
pub enum ShortcutTarget {
    /// A web address, or nothing: the shortcut is not an application.
    NotLaunchable,
    /// A target that is not a file path: the shortcut launches it.
    Launchable,
    /// A file path: the shortcut launches when the path exists.
    LaunchableIfExists(String),
}

/// What a shortcut whose target and location resolved to `target` and
/// `location` launches.
pub open spec fn shortcut_target_kind(target: Seq<char>, location: Seq<char>) -> Option<Option<Seq<char>>> {
    let path = shortcut_target_path(target);
    if web_target(target) || web_target(location) || path.len() == 0 {
        None
    } else if crate::core_service::filesystem_path(path) {
        Some(Some(path))
    } else {
        Some(None)
    }
}

pub fn shortcut_launch_target(target: &str, location: &str) -> (r: ShortcutTarget)
    ensures
        match shortcut_target_kind(target@, location@) {
            None => r is NotLaunchable,
            Some(None) => r is Launchable,
            Some(Some(p)) => r matches ShortcutTarget::LaunchableIfExists(q) && q@ == p,
        },
{
    if shortcut_resolves_to_web_target(target) || shortcut_resolves_to_web_target(location) {
        return ShortcutTarget::NotLaunchable;
    }
    let path = normalize_shortcut_target_path(target);
    if path.as_str().unicode_len() == 0 {
        return ShortcutTarget::NotLaunchable;
    }
    if crate::core_service::looks_like_filesystem_path(path.as_str()) {
        return ShortcutTarget::LaunchableIfExists(path);
    }
    ShortcutTarget::Launchable
}

/// `s` without trailing `\` while it is longer than three bytes.
pub open spec fn without_trailing_backslashes(s: Seq<char>) -> Seq<char>
    decreases s.len(),
{
    if s.len() > 0 && s.last() == '\\' && text::byte_len(s) > 3 {
        without_trailing_backslashes(s.drop_last())
    } else {
        s
    }
}

/// A root as Windows Search scopes it: `\` separators, no trailing `\`
/// beyond a drive root, trimmed.
pub open spec fn search_root(path: Seq<char>) -> Seq<char> {
    text::trim(without_trailing_backslashes(backslashed(path)))
}

/// The non-empty search roots of `paths`, in order.
pub open spec fn search_roots(paths: Seq<Seq<char>>) -> Seq<Seq<char>>
    decreases paths.len(),
{
    if paths.len() == 0 {
        Seq::empty()
    } else {
        let prev = search_roots(paths.drop_last());
        let r = search_root(paths.last());
        if r.len() > 0 {
            prev.push(r)
        } else {
            prev
        }
    }
}

fn search_root_of(path: &str) -> (out: Vec<char>)
    ensures
        out@ == search_root(path@),
{
    let v = text::chars_of(path);
    let mut b = backslash_vec(&v);
    while b.len() > 0 && b[b.len() - 1] == '\\' && text::byte_len_of(&b) > 3
        invariant
            without_trailing_backslashes(b@) == without_trailing_backslashes(backslashed(path@)),
        decreases b@.len(),
    {
        b.pop();
    }
    text::trim_vec(&b)
}

/// The roots handed to the Windows Search query, separated by U+001F.
pub fn join_windows_paths_for_powershell(paths: &[String]) -> (out: String)
    ensures
        out@ == crate::query_dsl::join(search_roots(crate::query_dsl::strings(paths@)), seq!['\u{1f}']),
{
    let mut roots: Vec<Vec<char>> = Vec::new();
    let mut i: usize = 0;
    while i < paths.len()
        invariant
            i <= paths@.len(),
            views(roots@) == search_roots(crate::query_dsl::strings(paths@).take(i as int)),
        decreases paths@.len() - i,
    {
        let r = search_root_of(paths[i].as_str());
        proof {
            let ps = crate::query_dsl::strings(paths@);
            assert(ps.take((i + 1) as int).drop_last() =~= ps.take(i as int));
            assert(ps.take((i + 1) as int).last() == paths@[i as int]@);
        }
        if r.len() > 0 {
            let ghost before = views(roots@);
            roots.push(r);
            proof {
                assert(views(roots@) =~= before.push(r@));
            }
        }
        i = i + 1;
    }
    proof {
        assert(crate::query_dsl::strings(paths@).take(paths@.len() as int) =~= crate::query_dsl::strings(paths@));
    }
    let joined = crate::query_dsl::join_chars(&roots, '\u{1f}');
    text::string_of(&joined)
}

// ---------------------------------------------------------------------------
// One Start menu application per title
// ---------------------------------------------------------------------------

/// How good a path is for launching an application: an `AppsFolder` entry,
/// then a shortcut or executable, then anything else.
pub open spec fn quality_rank(path: Seq<char>) -> int {
    let lowered = text::ascii_lower(text::trim(path));
    if text::starts_with(lowered, "shell:appsfolder\\"@) {
        3
    } else if text::ends_with(lowered, ".lnk"@) || text::ends_with(lowered, ".exe"@) {
        2
    } else {
        1
    }
}

pub fn app_quality_rank(item: &SearchItem) -> (r: u8)
    ensures
        r as int == quality_rank(item.path@),
{
    let t = text::trimmed_chars(item.path.as_str());
    let lowered = text::lower_vec(&t);
    if text::vec_starts_with(&lowered, &text::chars_of("shell:appsfolder\\")) {
        return 3;
    }
    if text::vec_ends_with(&lowered, &text::chars_of(".lnk")) || text::vec_ends_with(&lowered, &text::chars_of(".exe")) {
        return 2;
    }
    1
}

/// The key two applications are the same under: the normalized title, or
/// the id path when the title normalizes to nothing.
pub open spec fn app_key(item: SearchItem) -> Seq<char> {
    let k = normalize(text::trim(item.title@));
    if k.len() == 0 {
        "path:"@ + id_path(item.path@)
    } else {
        k
    }
}

fn app_key_of(item: &SearchItem) -> (k: Vec<char>)
    ensures
        k@ == app_key(*item),
{
    let t = text::trimmed_chars(item.title.as_str());
    let n = crate::model::normalize_chars(&t);
    if n.len() > 0 {
        return n;
    }
    let p = normalize_id_path(item.path.as_str());
    let k = text::concat("path:", p.as_str());
    text::chars_of(k.as_str())
}

/// The first index in `s` of an item with key `k`, or -1.
pub open spec fn key_index(s: Seq<SearchItem>, k: Seq<char>) -> int
    decreases s.len(),
{
    if s.len() == 0 {
        -1
    } else {
        let j = key_index(s.drop_last(), k);
        if j >= 0 {
            j
        } else if app_key(s.last()) == k {
            s.len() - 1
        } else {
            -1
        }
    }
}

proof fn lemma_key_index(s: Seq<SearchItem>, k: Seq<char>)
    ensures
        -1 <= key_index(s, k) < s.len(),
        key_index(s, k) >= 0 ==> app_key(s[key_index(s, k)]) == k,
        forall|m: int| 0 <= m < s.len() && (key_index(s, k) < 0 || m < key_index(s, k)) ==> app_key(#[trigger] s[m]) != k,
    decreases s.len(),
{
    if s.len() > 0 {
        lemma_key_index(s.drop_last(), k);
        assert forall|m: int| 0 <= m < s.len() - 1 implies #[trigger] s[m] == s.drop_last()[m] by {}
    }
}

/// The applications kept for each key, in the order the keys first come: the
/// first of the best rank.
pub open spec fn best_per_key(items: Seq<SearchItem>) -> Seq<SearchItem>
    decreases items.len(),
{
    if items.len() == 0 {
        Seq::empty()
    } else {
        let prev = best_per_key(items.drop_last());
        let x = items.last();
        let j = key_index(prev, app_key(x));
        if j < 0 {
            prev.push(x)
        } else if quality_rank(prev[j].path@) >= quality_rank(x.path@) {
            prev
        } else {
            prev.update(j, x)
        }
    }
}

fn best_apps_per_key(items: &Vec<SearchItem>) -> (best: Vec<SearchItem>)
    ensures
        best@ == best_per_key(items@),
{
    let mut best: Vec<SearchItem> = Vec::new();
    let mut keys: Vec<Vec<char>> = Vec::new();
    let mut i: usize = 0;
    while i < items.len()
        invariant
            i <= items@.len(),
            best@ == best_per_key(items@.take(i as int)),
            keys@.len() == best@.len(),
            forall|m: int| 0 <= m < keys@.len() ==> (#[trigger] keys@[m])@ == app_key(best@[m]),
        decreases items@.len() - i,
    {
        let x = &items[i];
        let k = app_key_of(x);
        proof {
            assert(items@.take((i + 1) as int).drop_last() =~= items@.take(i as int));
            assert(items@.take((i + 1) as int).last() == *x);
            lemma_key_index(best@, k@);
        }
        let mut j: usize = 0;
        while j < keys.len() && !text::vec_eq(&keys[j], &k)
            invariant
                j <= keys@.len(),
                keys@.len() == best@.len(),
                forall|m: int| 0 <= m < keys@.len() ==> (#[trigger] keys@[m])@ == app_key(best@[m]),
                forall|m: int| 0 <= m < j ==> app_key(#[trigger] best@[m]) != k@,
            decreases keys@.len() - j,
        {
            j = j + 1;
        }
        proof {
            if j < keys@.len() {
                assert(keys@[j as int]@ == k@);
                assert(key_index(best@, k@) == j as int);
            } else {
                assert(key_index(best@, k@) < 0);
            }
        }
        if j == keys.len() {
            best.push(x.clone());
            keys.push(k);
        } else if app_quality_rank(&best[j]) < app_quality_rank(x) {
            best.set(j, x.clone());
        }
        i = i + 1;
    }
    proof {
        assert(items@.take(items@.len() as int) =~= items@);
    }
    best
}

/// Applications ordered by their ASCII-lowercased titles.
pub open spec fn title_leq() -> spec_fn(SearchItem, SearchItem) -> bool {
    |a: SearchItem, b: SearchItem| seq_order(text::ascii_lower(a.title@), text::ascii_lower(b.title@)) <= 0
}

/// Keeps one application per title (see `best_per_key`), ordered by title
/// without regard to ASCII case; among equal titles the order is not fixed.
pub fn dedupe_apps_by_title(items: Vec<SearchItem>) -> (out: Vec<SearchItem>)
    ensures
        sorted_by(out@, title_leq()),
        out@.to_multiset() == best_per_key(items@).to_multiset(),
{
    let best = best_apps_per_key(&items);
    let mut out: Vec<SearchItem> = Vec::new();
    let mut i: usize = 0;
    while i < best.len()
        invariant
            i <= best@.len(),
            sorted_by(out@, title_leq()),
            out@.to_multiset() == best@.take(i as int).to_multiset(),
        decreases best@.len() - i,
    {
        let x = best[i].clone();
        let xl = text::lower_vec(&text::chars_of(x.title.as_str()));
        let mut pos: usize = 0;
        while pos < out.len() && seq_order_exec(&text::lower_vec(&text::chars_of(out[pos].title.as_str())), &xl) <= 0
            invariant
                pos <= out@.len(),
                xl@ == text::ascii_lower(x.title@),
                forall|k: int| 0 <= k < pos ==> title_leq()(#[trigger] out@[k], x),
            decreases out@.len() - pos,
        {
            pos = pos + 1;
        }
        let ghost before = out@;
        proof {
            if pos < before.len() {
                lemma_seq_order_antisym(text::ascii_lower(before[pos as int].title@), text::ascii_lower(x.title@));
                assert(title_leq()(x, before[pos as int]));
            }
        }
        out.insert(pos, x);
        proof {
            let a = before.take(pos as int);
            let b = before.skip(pos as int);
            assert(before =~= a + b);
            assert(out@ =~= a.push(x) + b);
            assert forall|p: int, q: int| 0 <= p < q < out@.len() implies #[trigger] title_leq()(out@[p], out@[q]) by {
                if q < pos {
                    assert(title_leq()(before[p], before[q]));
                } else if q == pos {
                    assert(title_leq()(before[p], x));
                } else if p < pos {
                    assert(title_leq()(before[p], before[q - 1]));
                } else if p == pos {
                    if pos < q - 1 {
                        assert(title_leq()(before[pos as int], before[q - 1]));
                        lemma_seq_order_trans(
                            text::ascii_lower(x.title@),
                            text::ascii_lower(before[pos as int].title@),
                            text::ascii_lower(before[q - 1].title@),
                        );
                    }
                } else {
                    assert(title_leq()(before[p - 1], before[q - 1]));
                }
            }
            vstd::seq_lib::lemma_multiset_commutative(a, b);
            vstd::seq_lib::lemma_multiset_commutative(a.push(x), b);
            assert(out@.to_multiset() =~= before.to_multiset().insert(x));
            assert(best@.take(i + 1) =~= best@.take(i as int).push(x));
        }
        i = i + 1;
    }
    proof {
        assert(best@.take(best@.len() as int) =~= best@);
    }
    out
}

// ---------------------------------------------------------------------------
// Change stamps
// ---------------------------------------------------------------------------

/// What a quick look at a root finds: whether it exists (1) or not (0), when
/// it was last modified, and for a directory how many entries it holds and
/// the latest modification among them (seconds since the Unix epoch).
#[derive(Debug, Clone, Copy, PartialEq, Eq, Structural)]
pub struct PathFingerprint {
    pub exists: u8,
    pub modified_secs: u64,
    pub child_count: usize,
    pub child_latest_secs: u64,
}

/// One root in a change stamp: its path with `\` separators in ASCII lower
/// case, then the fingerprint's figures, separated by `:`.
pub open spec fn root_stamp(root: Seq<char>, f: PathFingerprint) -> Seq<char> {
    text::ascii_lower(backslashed(root)) + ":"@ + decimal(f.exists as nat) + ":"@ + decimal(f.modified_secs as nat)
        + ":"@ + decimal(f.child_count as nat) + ":"@ + decimal(f.child_latest_secs as nat)
}

/// The stamps of `roots` with their fingerprints, joined by `|`.
pub open spec fn roots_stamp(roots: Seq<String>, prints: Seq<PathFingerprint>) -> Seq<char> {
    crate::query_dsl::join(Seq::new(roots.len(), |i: int| root_stamp(roots[i]@, prints[i])), "|"@)
}

fn push_decimal(out: &mut Vec<char>, n: u64)
    ensures
        final(out)@ == old(out)@ + decimal(n as nat),
{
    let d = crate::settings::decimal_u64(n);
    let mut i: usize = 0;
    while i < d.len()
        invariant
            i <= d@.len(),
            out@ == old(out)@ + d@.take(i as int),
        decreases d@.len() - i,
    {
        out.push(d[i]);
        proof {
            assert(d@.take((i + 1) as int) =~= d@.take(i as int).push(d@[i as int]));
        }
        i = i + 1;
    }
    proof {
        assert(d@.take(d@.len() as int) =~= d@);
    }
}

fn root_stamp_of(root: &str, f: PathFingerprint) -> (out: Vec<char>)
    ensures
        out@ == root_stamp(root@, f),
{
    let v = text::chars_of(root);
    let b = backslash_vec(&v);
    let mut out = text::lower_vec(&b);
    out.push(':');
    push_decimal(&mut out, f.exists as u64);
    out.push(':');
    push_decimal(&mut out, f.modified_secs);
    out.push(':');
    push_decimal(&mut out, f.child_count as u64);
    out.push(':');
    push_decimal(&mut out, f.child_latest_secs);
    proof {
        reveal_strlit(":");
        assert(out@ =~= root_stamp(root@, f));
    }
    out
}

/// The change stamp of `roots`, given a fingerprint of each.
pub fn roots_change_stamp(roots: &[String], prints: &[PathFingerprint]) -> (out: String)
    requires
        prints@.len() == roots@.len(),
    ensures
        out@ == roots_stamp(roots@, prints@),
{
    let mut parts: Vec<Vec<char>> = Vec::new();
    let mut i: usize = 0;
    while i < roots.len()
        invariant
            i <= roots@.len(),
            prints@.len() == roots@.len(),
            views(parts@) == Seq::new(i as nat, |k: int| root_stamp(roots@[k]@, prints@[k])),
        decreases roots@.len() - i,
    {
        let part = root_stamp_of(roots[i].as_str(), prints[i]);
        let ghost before = views(parts@);
        parts.push(part);
        proof {
            assert(views(parts@) =~= before.push(part@));
            assert(views(parts@) =~= Seq::new((i + 1) as nat, |k: int| root_stamp(roots@[k]@, prints@[k])));
        }
        i = i + 1;
    }
    let joined = crate::query_dsl::join_chars(&parts, '|');
    proof {
        reveal_strlit("|");
        assert(seq!['|'] =~= "|"@);
        assert(views(parts@) =~= Seq::new(roots@.len(), |k: int| root_stamp(roots@[k]@, prints@[k])));
    }
    text::string_of(&joined)
}

impl StartMenuAppDiscoveryProvider {
    /// The roots searched for shortcuts.
    pub fn roots(&self) -> (r: &[String])
        ensures
            r@ == self.root_paths(),
    {
        self.roots.as_slice()
    }

    /// The change stamp: the discovery schema version, then the roots'
    /// stamp, given a fingerprint of each root.
    pub fn change_stamp_from(&self, prints: &[PathFingerprint]) -> (r: Option<String>)
        requires
            prints@.len() == self.root_paths().len(),
        ensures
            r matches Some(s) && s@ == "v2;"@ + roots_stamp(self.root_paths(), prints@),
    {
        let mut s = text::owned("v2;");
        let roots = roots_change_stamp(self.roots.as_slice(), prints);
        text::push_str(&mut s, roots.as_str());
        Some(s)
    }
}

/// The on/off text of a flag.
pub open spec fn flag_text(b: bool, on: Seq<char>, off: Seq<char>) -> Seq<char> {
    if b {
        on
    } else {
        off
    }
}

impl FileSystemDiscoveryProvider {
    /// The change stamp: the roots' and excluded roots' stamps (given a
    /// fingerprint of each), the depth, and the options.
    pub fn change_stamp_from(&self, root_prints: &[PathFingerprint], exclude_prints: &[PathFingerprint]) -> (r:
        Option<String>)
        requires
            root_prints@.len() == self.roots@.len(),
            exclude_prints@.len() == self.excluded_roots@.len(),
        ensures
            r matches Some(s) && s@ == "roots="@ + roots_stamp(self.roots@, root_prints@) + ";exclude="@ + roots_stamp(
                self.excluded_roots@,
                exclude_prints@,
            ) + ";depth="@ + decimal(self.max_depth as nat) + ";windows_search="@ + flag_text(
                self.windows_search_enabled,
                "enabled"@,
                "disabled"@,
            ) + ";fallback="@ + flag_text(self.windows_search_fallback_filesystem, "filesystem"@, "none"@)
                + ";show_files="@ + flag_text(self.show_files, "true"@, "false"@) + ";show_folders="@ + flag_text(
                self.show_folders,
                "true"@,
                "false"@,
            ),
    {
        let mut s = text::owned("roots=");
        let r = roots_change_stamp(self.roots.as_slice(), root_prints);
        text::push_str(&mut s, r.as_str());
        text::push_str(&mut s, ";exclude=");
        let e = roots_change_stamp(self.excluded_roots.as_slice(), exclude_prints);
        text::push_str(&mut s, e.as_str());
        text::push_str(&mut s, ";depth=");
        let d = crate::settings::decimal_u64(self.max_depth as u64);
        let ds = text::string_of(&d);
        text::push_str(&mut s, ds.as_str());
        text::push_str(&mut s, ";windows_search=");
        text::push_str(
            &mut s,
            if self.windows_search_enabled {
                "enabled"
            } else {
                "disabled"
            },
        );
        text::push_str(&mut s, ";fallback=");
        text::push_str(
            &mut s,
            if self.windows_search_fallback_filesystem {
                "filesystem"
            } else {
                "none"
            },
        );
        text::push_str(&mut s, ";show_files=");
        text::push_str(
            &mut s,
            if self.show_files {
                "true"
            } else {
                "false"
            },
        );
        text::push_str(&mut s, ";show_folders=");
        text::push_str(
            &mut s,
            if self.show_folders {
                "true"
            } else {
                "false"
            },
        );
        Some(s)
    }
}

} // verus!
