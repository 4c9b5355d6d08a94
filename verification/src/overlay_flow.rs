//! The overlay's event handling: how the hotkey, typing, moving, submitting
//! and Escape change what the overlay holds, and what the window and the
//! runtime are asked to do in turn.
use vstd::prelude::*;

use crate::config::{texts, Config};
use crate::model::SearchItem;
use crate::overlay_session::copy_items;
use crate::overlay_state::{escape_hides, hotkey_action, hotkey_visible, HotkeyAction, OverlayState};
use crate::overlay_view::{overlay_rows, row_layout, rows_fill_from, OverlayRow};
use crate::plugin_sdk::PluginRegistry;
use crate::query_dsl::{is_command, strings, ParsedQuery};
use crate::runtime::{
    confirmation_results, dedupe_overlay_results, deduped, filter_suppressed_uninstall_results, has_title_ic,
    maybe_expand_uninstall_quick_shortcut, next_selection, next_selection_index, quick_uninstall_expansion,
    result_limit, result_limit_for_query, shortcut_checks_ok, surviving, suppression_keys,
    track_uninstall_title_suppression, uninstall_confirmation_results, uninstall_target_title,
    ACTION_UNINSTALL_CANCEL_ID, ACTION_UNINSTALL_CONFIRM_ID,
};
use crate::selection::{launch_overlay_selection, selection_outcome, SelectionLaunch};
use crate::text;
use crate::uninstall_registry::ACTION_UNINSTALL_PREFIX;

verus! {

/// The status row when a query finds nothing.
pub const STATUS_ROW_NO_RESULTS: &'static str = "No results";

/// The status row when a command-mode query finds nothing.
pub const STATUS_ROW_NO_COMMAND_RESULTS: &'static str = "No command matches";

/// The hint shown when Enter is pressed on an empty query.
pub const STATUS_ROW_TYPE_TO_SEARCH: &'static str = "Start typing to search";

/// The status row while the first index is still being built.
pub const STATUS_ROW_INDEXING: &'static str = "Indexing in background...";

/// What the overlay window or the runtime is asked to do.
#[derive(Debug)]
pub enum OverlayCommand {
    ShowAndFocus,
    Hide,
    /// Hide at once, without any animation.
    HideNow,
    ClearQueryText,
    SetQueryText(String),
    /// No hint, no rows and no status text.
    ShowIdle,
    ShowPlaceholderHint(String),
    /// A single status row in place of the results.
    ShowStatusRow(String),
    ShowRows { rows: Vec<OverlayRow>, selected: usize },
    SelectRow(usize),
    SetStatusText(String),
    /// Capture the system clipboard into the history.
    CaptureClipboard,
    /// Check which suppressed uninstall titles are still registered.
    ReconcileSuppressedTitles,
    ClearSearchSession,
    /// Run the query, then report its results with `on_search_finished`.
    Search { query: ParsedQuery, limit: usize },
    /// Carry out a selection, then report how it went with `on_perform_finished`.
    Perform(SelectionLaunch),
    Quit,
}

/// A command as the contracts speak of it.
pub enum Cmd {
    ShowAndFocus,
    Hide,
    HideNow,
    ClearQueryText,
    SetQueryText(Seq<char>),
    ShowIdle,
    ShowPlaceholderHint(Seq<char>),
    ShowStatusRow(Seq<char>),
    /// The rows of these results in this mode, with this row selected.
    ShowRows(Seq<SearchItem>, bool, int),
    SelectRow(int),
    SetStatusText(Seq<char>),
    CaptureClipboard,
    ReconcileSuppressedTitles,
    ClearSearchSession,
    /// The query parsed from this text, with or without the DSL, limited by
    /// the result limit for this base.
    Search(Seq<char>, bool, int),
    Perform(SelectionLaunch),
    Quit,
}

pub open spec fn command_is(c: OverlayCommand, v: Cmd) -> bool {
    match v {
        Cmd::ShowAndFocus => c is ShowAndFocus,
        Cmd::Hide => c is Hide,
        Cmd::HideNow => c is HideNow,
        Cmd::ClearQueryText => c is ClearQueryText,
        Cmd::SetQueryText(t) => c matches OverlayCommand::SetQueryText(s) && s@ == t,
        Cmd::ShowIdle => c is ShowIdle,
        Cmd::ShowPlaceholderHint(t) => c matches OverlayCommand::ShowPlaceholderHint(s) && s@ == t,
        Cmd::ShowStatusRow(t) => c matches OverlayCommand::ShowStatusRow(s) && s@ == t,
        Cmd::ShowRows(results, command_mode, sel) => c matches OverlayCommand::ShowRows { rows, selected }
            && rows_fill_from(rows@, 0, row_layout(results, command_mode), results, command_mode) && selected == sel,
        Cmd::SelectRow(i) => c matches OverlayCommand::SelectRow(j) && j == i,
        Cmd::SetStatusText(t) => c matches OverlayCommand::SetStatusText(s) && s@ == t,
        Cmd::CaptureClipboard => c is CaptureClipboard,
        Cmd::ReconcileSuppressedTitles => c is ReconcileSuppressedTitles,
        Cmd::ClearSearchSession => c is ClearSearchSession,
        Cmd::Search(q, dsl, base) => c matches OverlayCommand::Search { query, limit } && query.parsed_from(q, dsl)
            && limit == result_limit(base, query),
        Cmd::Perform(l) => c matches OverlayCommand::Perform(x) && x == l,
        Cmd::Quit => c is Quit,
    }
}

/// `cs` are the commands `vs`, in order.
pub open spec fn commands_are(cs: Seq<OverlayCommand>, vs: Seq<Cmd>) -> bool {
    &&& cs.len() == vs.len()
    &&& forall|i: int| 0 <= i < cs.len() ==> command_is(#[trigger] cs[i], vs[i])
}

fn push_cmd(cmds: &mut Vec<OverlayCommand>, c: OverlayCommand, Ghost(vs): Ghost<Seq<Cmd>>, Ghost(v): Ghost<Cmd>)
    requires
        commands_are(old(cmds)@, vs),
        command_is(c, v),
    ensures
        commands_are(final(cmds)@, vs.push(v)),
{
    cmds.push(c);
    proof {
        let n = vs.len() as int;
        assert forall|i: int| 0 <= i < cmds@.len() implies command_is(#[trigger] cmds@[i], vs.push(v)[i]) by {
            if i < n {
                assert(cmds@[i] == old(cmds)@[i]);
            }
        }
    }
}

/// An uninstall confirmation waiting for the user: the uninstall action, and
/// the results, selection and mode to go back to.
pub struct PendingUninstallConfirmation {
    pub uninstall_action: SearchItem,
    pub previous_results: Vec<SearchItem>,
    pub previous_selected_index: usize,
    pub previous_command_mode: bool,
}

/// What the flow waits to hear back about.
pub enum Awaiting {
    Nothing,
    /// A selection being launched.
    Launch,
    /// A confirmed uninstall being started.
    Uninstall(PendingUninstallConfirmation),
}

/// The overlay's session: its visibility, the results on show and the
/// selected one, the last query searched, the titles of applications being
/// uninstalled, a pending uninstall confirmation, the mode of the search in
/// flight, and what the flow waits for.
pub struct OverlayFlow {
    pub overlay: OverlayState,
    pub results: Vec<SearchItem>,
    pub selected_index: usize,
    pub last_query: String,
    pub suppressed_titles: Vec<String>,
    pub pending: Option<PendingUninstallConfirmation>,
    pub search_command_mode: bool,
    pub awaiting: Awaiting,
}

/// An id of an uninstall action.
pub open spec fn is_uninstall_id(id: Seq<char>) -> bool {
    text::starts_with(id, "__swiftfind_action_uninstall__:"@)
}

/// The status row for a query that found nothing.
pub open spec fn no_results_message(command_mode: bool) -> Seq<char> {
    if command_mode {
        "No command matches"@
    } else {
        "No results"@
    }
}

/// Whether `query` parses as a command-mode query.
pub open spec fn query_command_mode(query: Seq<char>, dsl_enabled: bool) -> bool {
    let raw = text::trim(query);
    raw.len() > 0 && dsl_enabled && is_command(raw)
}

/// After the hotkey or an outside request shows the overlay: suppressed
/// titles are checked again, the window shows and takes the focus, the
/// clipboard is captured when the history is on, and an empty query shows
/// the idle state.
pub open spec fn show_commands(cfg: Config, query_text: Seq<char>) -> Seq<Cmd> {
    seq![Cmd::ReconcileSuppressedTitles, Cmd::ShowAndFocus] + (if cfg.clipboard_enabled {
        seq![Cmd::CaptureClipboard]
    } else {
        Seq::empty()
    }) + (if text::trim(query_text).len() == 0 {
        seq![Cmd::ShowIdle]
    } else {
        Seq::empty()
    })
}

/// Closing the session: hide, clear the query text, show the idle state and
/// forget the search session.
pub open spec fn close_commands(hide: Cmd) -> Seq<Cmd> {
    seq![hide, Cmd::ClearQueryText, Cmd::ShowIdle, Cmd::ClearSearchSession]
}

/// `t` is `s` with its session closed: no results, nothing selected, no
/// pending confirmation and no remembered query.
pub open spec fn session_closed(s: OverlayFlow, t: OverlayFlow) -> bool {
    &&& t.results@.len() == 0
    &&& t.selected_index == 0
    &&& t.pending is None
    &&& t.last_query@.len() == 0
    &&& t.suppressed_titles == s.suppressed_titles
    &&& t.search_command_mode == s.search_command_mode
    &&& t.awaiting == s.awaiting
}

/// `t` is `s` with at most its visibility changed.
pub open spec fn same_but_overlay(s: OverlayFlow, t: OverlayFlow) -> bool {
    &&& t.results == s.results
    &&& t.selected_index == s.selected_index
    &&& t.last_query == s.last_query
    &&& t.suppressed_titles == s.suppressed_titles
    &&& t.pending == s.pending
    &&& t.search_command_mode == s.search_command_mode
    &&& t.awaiting == s.awaiting
}

/// The hotkey: a focused overlay is hidden and its session closed; otherwise
/// it is shown.
pub open spec fn hotkey_step(
    s: OverlayFlow,
    t: OverlayFlow,
    cmds: Seq<OverlayCommand>,
    cfg: Config,
    visible: bool,
    has_focus: bool,
    query_text: Seq<char>,
) -> bool {
    &&& t.overlay.shown() == hotkey_visible(visible, has_focus)
    &&& if hotkey_action(visible, has_focus) == HotkeyAction::Hide {
        session_closed(s, t) && commands_are(cmds, close_commands(Cmd::Hide))
    } else {
        same_but_overlay(s, t) && commands_are(cmds, show_commands(cfg, query_text))
    }
}

/// An outside request to show the overlay.
pub open spec fn external_show_step(
    s: OverlayFlow,
    t: OverlayFlow,
    cmds: Seq<OverlayCommand>,
    cfg: Config,
    visible: bool,
    query_text: Seq<char>,
) -> bool {
    &&& t.overlay.shown() == visible
    &&& same_but_overlay(s, t)
    &&& commands_are(cmds, show_commands(cfg, query_text))
}

/// An outside request to quit: hide, forget the query and the search
/// session, and quit.
pub open spec fn external_quit_step(s: OverlayFlow, t: OverlayFlow, cmds: Seq<OverlayCommand>) -> bool {
    &&& t.last_query@.len() == 0
    &&& t.overlay == s.overlay
    &&& t.results == s.results
    &&& t.selected_index == s.selected_index
    &&& t.suppressed_titles == s.suppressed_titles
    &&& t.pending == s.pending
    &&& t.search_command_mode == s.search_command_mode
    &&& t.awaiting == s.awaiting
    &&& commands_are(cmds, seq![Cmd::HideNow, Cmd::ClearSearchSession, Cmd::Quit])
}

/// Escape: a visible overlay is hidden and its session closed; a hidden one
/// stays as it is.
pub open spec fn escape_step(s: OverlayFlow, t: OverlayFlow, cmds: Seq<OverlayCommand>) -> bool {
    &&& !t.overlay.shown()
    &&& if escape_hides(s.overlay.shown()) {
        session_closed(s, t) && commands_are(cmds, close_commands(Cmd::HideNow))
    } else {
        same_but_overlay(s, t) && cmds.len() == 0
    }
}

/// The query after the uninstall shortcut is expanded.
pub open spec fn typed_query(query: Seq<char>, last_query: Seq<char>) -> Seq<char> {
    match quick_uninstall_expansion(query, last_query) {
        Some(e) => e,
        None => query,
    }
}

/// The query text changed: a pending confirmation is dropped and the
/// uninstall shortcut expanded; an empty query clears the results, the same
/// query as last time does nothing more, and any other is searched.
pub open spec fn query_step(s: OverlayFlow, t: OverlayFlow, cmds: Seq<OverlayCommand>, cfg: Config, query: Seq<char>) -> bool {
    let expansion = quick_uninstall_expansion(query, s.last_query@);
    let shown_text: Seq<Cmd> = match expansion {
        Some(e) => seq![Cmd::SetQueryText(e)],
        None => Seq::empty(),
    };
    let trimmed = text::trim(typed_query(query, s.last_query@));
    &&& t.pending is None
    &&& t.overlay == s.overlay
    &&& t.suppressed_titles == s.suppressed_titles
    &&& t.awaiting == s.awaiting
    &&& if trimmed.len() == 0 {
        &&& t.results@.len() == 0
        &&& t.selected_index == 0
        &&& t.last_query@.len() == 0
        &&& t.search_command_mode == s.search_command_mode
        &&& commands_are(cmds, shown_text + seq![Cmd::ClearSearchSession, Cmd::ShowIdle])
    } else if trimmed == s.last_query@ {
        &&& t.results == s.results
        &&& t.selected_index == s.selected_index
        &&& t.last_query == s.last_query
        &&& t.search_command_mode == s.search_command_mode
        &&& commands_are(cmds, shown_text)
    } else {
        &&& t.results == s.results
        &&& t.selected_index == s.selected_index
        &&& t.last_query@ == trimmed
        &&& t.search_command_mode == query_command_mode(trimmed, cfg.search_dsl_enabled)
        &&& commands_are(cmds, shown_text + seq![Cmd::Search(trimmed, cfg.search_dsl_enabled, cfg.max_results as int)])
    }
}

/// The results shown for what a search found: duplicates dropped, then the
/// applications being uninstalled left out.
pub open spec fn shown_results(found: Seq<SearchItem>, suppressed: Seq<String>) -> Seq<SearchItem> {
    let d = deduped(found, found.len() as int);
    let keys = suppression_keys(texts(suppressed));
    if d.len() == 0 || suppressed.len() == 0 || keys.len() == 0 {
        d
    } else {
        surviving(d, keys)
    }
}

/// A search finished: what it found is shown, with the first row selected,
/// or a status row when nothing is left; a failed search clears the results
/// and the search session and shows the error.
pub open spec fn search_finished_step(
    s: OverlayFlow,
    t: OverlayFlow,
    cmds: Seq<OverlayCommand>,
    outcome: Result<Vec<SearchItem>, String>,
    indexing: bool,
) -> bool {
    &&& t.selected_index == 0
    &&& t.overlay == s.overlay
    &&& t.last_query == s.last_query
    &&& t.suppressed_titles == s.suppressed_titles
    &&& t.pending == s.pending
    &&& t.search_command_mode == s.search_command_mode
    &&& t.awaiting == s.awaiting
    &&& match outcome {
        Ok(found) => {
            let shown = shown_results(found@, s.suppressed_titles@);
            &&& t.results@ == shown
            &&& commands_are(
                cmds,
                if shown.len() == 0 {
                    seq![
                        Cmd::ShowStatusRow(
                            if indexing {
                                "Indexing in background..."@
                            } else {
                                no_results_message(s.search_command_mode)
                            },
                        ),
                    ]
                } else {
                    seq![Cmd::ShowRows(shown, s.search_command_mode, 0)]
                },
            )
        },
        Err(e) => {
            &&& t.results@.len() == 0
            &&& commands_are(
                cmds,
                seq![Cmd::ClearSearchSession, Cmd::ShowRows(Seq::empty(), false, 0), Cmd::SetStatusText("Search error: "@ + e@)],
            )
        },
    }
}

/// Moving the selection: nothing without results; otherwise one row up or
/// down, kept within the results.
pub open spec fn move_step(s: OverlayFlow, t: OverlayFlow, cmds: Seq<OverlayCommand>, direction: int) -> bool {
    if s.results@.len() == 0 {
        t == s && cmds.len() == 0
    } else {
        let next = next_selection(s.selected_index as int, s.results@.len() as int, direction);
        &&& t.selected_index == next
        &&& t.overlay == s.overlay
        &&& t.results == s.results
        &&& t.last_query == s.last_query
        &&& t.suppressed_titles == s.suppressed_titles
        &&& t.pending == s.pending
        &&& t.search_command_mode == s.search_command_mode
        &&& t.awaiting == s.awaiting
        &&& commands_are(cmds, seq![Cmd::SelectRow(next)])
    }
}

/// The row Enter acts on: the window's selected row when it has one, kept
/// within the results; otherwise the flow's own selection.
pub open spec fn submit_index(s: OverlayFlow, list_selection: Option<usize>) -> int {
    let n = s.results@.len() as int;
    match list_selection {
        Some(ls) => if ls < n - 1 {
            ls as int
        } else {
            n - 1
        },
        None => s.selected_index as int,
    }
}

/// Enter without results: the idle state and a hint for an empty query,
/// the indexing status while the first index is built, else "no results".
pub open spec fn empty_submit_commands(cfg: Config, query_text: Seq<char>, indexing: bool) -> Seq<Cmd> {
    if text::trim(query_text).len() == 0 {
        seq![Cmd::ShowIdle, Cmd::ShowPlaceholderHint("Start typing to search"@)]
    } else if indexing {
        seq![Cmd::ShowStatusRow("Indexing in background..."@)]
    } else {
        seq![Cmd::ShowStatusRow(no_results_message(query_command_mode(query_text, cfg.search_dsl_enabled)))]
    }
}

/// The selection to go back to after a cancelled confirmation.
pub open spec fn restored_index(p: PendingUninstallConfirmation) -> int {
    let m = p.previous_results@.len() as int;
    if m == 0 {
        0
    } else if p.previous_selected_index < m - 1 {
        p.previous_selected_index as int
    } else {
        m - 1
    }
}

/// Enter. Without results it only shows a status. With a confirmation
/// pending, "confirm" hides the overlay and starts the uninstall, "cancel"
/// brings back the results from before, and any other row drops the
/// confirmation. An uninstall action asks for confirmation first; any other
/// selection is launched when it can be, and the reason shown when not.
pub open spec fn submit_step(
    s: OverlayFlow,
    t: OverlayFlow,
    cmds: Seq<OverlayCommand>,
    cfg: Config,
    plugins: PluginRegistry,
    query_text: Seq<char>,
    list_selection: Option<usize>,
    indexing: bool,
) -> bool {
    let n = s.results@.len() as int;
    if n == 0 {
        t == s && commands_are(cmds, empty_submit_commands(cfg, query_text, indexing))
    } else {
        let sel = submit_index(s, list_selection);
        let item = s.results@[sel];
        &&& t.suppressed_titles == s.suppressed_titles
        &&& t.last_query == s.last_query
        &&& t.search_command_mode == s.search_command_mode
        &&& if s.pending is Some && item.id@ == "action:uninstall:confirm"@ {
            let p = s.pending->0;
            &&& !t.overlay.shown()
            &&& t.results == s.results
            &&& t.selected_index == sel
            &&& t.pending is None
            &&& t.awaiting == Awaiting::Uninstall(p)
            &&& commands_are(
                cmds,
                seq![Cmd::HideNow, Cmd::Perform(SelectionLaunch::Uninstall { action_id: p.uninstall_action.id })],
            )
        } else if s.pending is Some && item.id@ == "action:uninstall:cancel"@ {
            let p = s.pending->0;
            let back = restored_index(p);
            &&& t.overlay == s.overlay
            &&& t.results == p.previous_results
            &&& t.selected_index == back
            &&& t.pending is None
            &&& t.awaiting == s.awaiting
            &&& commands_are(
                cmds,
                (if p.previous_results@.len() == 0 {
                    seq![Cmd::ShowStatusRow(no_results_message(p.previous_command_mode))]
                } else {
                    seq![Cmd::ShowRows(p.previous_results@, p.previous_command_mode, back)]
                }) + seq![Cmd::SetStatusText(Seq::empty())],
            )
        } else if is_uninstall_id(item.id@) {
            &&& t.overlay == s.overlay
            &&& t.pending matches Some(p) && p.uninstall_action == item && p.previous_results@ == s.results@
                && p.previous_selected_index == sel && p.previous_command_mode == query_command_mode(
                query_text,
                cfg.search_dsl_enabled,
            )
            &&& confirmation_results(item, t.results@)
            &&& t.selected_index == 0
            &&& t.awaiting == s.awaiting
            &&& commands_are(cmds, seq![Cmd::ShowRows(t.results@, true, 0), Cmd::SetStatusText(Seq::empty())])
        } else {
            &&& t.overlay == s.overlay
            &&& t.results == s.results
            &&& t.selected_index == sel
            &&& t.pending is None
            &&& exists|r: Result<SelectionLaunch, String>|
                selection_outcome(cfg, plugins, s.results@, sel, r) && match r {
                    Ok(l) => t.awaiting == Awaiting::Launch && commands_are(cmds, seq![Cmd::Perform(l)]),
                    Err(e) => t.awaiting == s.awaiting && commands_are(
                        cmds,
                        seq![Cmd::SetStatusText("Launch error: "@ + e@)],
                    ),
                }
        }
    }
}

/// The suppressed titles after an uninstall of `action_title` started: the
/// application's title is added once, ignoring ASCII case.
pub open spec fn suppression_tracked(before: Seq<String>, action_title: Seq<char>, after: Seq<String>) -> bool {
    match uninstall_target_title(action_title) {
        Some(tt) => if has_title_ic(strings(before), tt) {
            after == before
        } else {
            strings(after) == strings(before).push(tt)
        },
        None => after == before,
    }
}

/// A launch or uninstall finished. A launch that went through hides the
/// overlay and closes the session; an uninstall that started hides its
/// application from results and closes the session; a failure shows the
/// error, and a failed uninstall keeps its confirmation pending.
pub open spec fn perform_finished_step(
    s: OverlayFlow,
    t: OverlayFlow,
    cmds: Seq<OverlayCommand>,
    outcome: Result<(), String>,
) -> bool {
    match s.awaiting {
        Awaiting::Nothing => t == s && cmds.len() == 0,
        Awaiting::Launch => {
            &&& t.awaiting is Nothing
            &&& match outcome {
                Ok(_) => {
                    &&& !t.overlay.shown()
                    &&& t.results@.len() == 0
                    &&& t.selected_index == 0
                    &&& t.pending is None
                    &&& t.last_query@.len() == 0
                    &&& t.suppressed_titles == s.suppressed_titles
                    &&& t.search_command_mode == s.search_command_mode
                    &&& commands_are(
                        cmds,
                        seq![Cmd::SetStatusText(Seq::empty())] + close_commands(Cmd::HideNow),
                    )
                },
                Err(e) => {
                    &&& same_but_awaiting(s, t)
                    &&& commands_are(cmds, seq![Cmd::SetStatusText("Launch error: "@ + e@)])
                },
            }
        },
        Awaiting::Uninstall(p) => {
            &&& t.awaiting is Nothing
            &&& match outcome {
                Ok(_) => {
                    &&& t.overlay == s.overlay
                    &&& t.results@.len() == 0
                    &&& t.selected_index == 0
                    &&& t.pending == s.pending
                    &&& t.last_query@.len() == 0
                    &&& suppression_tracked(s.suppressed_titles@, p.uninstall_action.title@, t.suppressed_titles@)
                    &&& t.search_command_mode == s.search_command_mode
                    &&& commands_are(
                        cmds,
                        seq![Cmd::SetStatusText(Seq::empty()), Cmd::ClearQueryText, Cmd::ShowIdle, Cmd::ClearSearchSession],
                    )
                },
                Err(e) => {
                    &&& t.overlay == s.overlay
                    &&& t.results == s.results
                    &&& t.selected_index == s.selected_index
                    &&& t.pending == Some(p)
                    &&& t.last_query == s.last_query
                    &&& t.suppressed_titles == s.suppressed_titles
                    &&& t.search_command_mode == s.search_command_mode
                    &&& commands_are(cmds, seq![Cmd::ShowAndFocus, Cmd::SetStatusText("Launch error: "@ + e@)])
                },
            }
        },
    }
}

/// `t` is `s` with at most what it waits for changed.
pub open spec fn same_but_awaiting(s: OverlayFlow, t: OverlayFlow) -> bool {
    &&& t.overlay == s.overlay
    &&& t.results == s.results
    &&& t.selected_index == s.selected_index
    &&& t.last_query == s.last_query
    &&& t.suppressed_titles == s.suppressed_titles
    &&& t.pending == s.pending
    &&& t.search_command_mode == s.search_command_mode
}

/// The suppressed titles whose applications are no longer registered (or
/// could not be checked), among the first `n`.
pub open spec fn kept_titles(titles: Seq<String>, registered: Seq<Option<bool>>, n: int) -> Seq<String>
    decreases n,
{
    if n <= 0 {
        Seq::empty()
    } else if registered[n - 1] == Some(true) {
        kept_titles(titles, registered, n - 1)
    } else {
        kept_titles(titles, registered, n - 1).push(titles[n - 1])
    }
}

/// `t` is `s` with at most its suppressed titles changed.
pub open spec fn same_but_suppressed(s: OverlayFlow, t: OverlayFlow) -> bool {
    &&& t.overlay == s.overlay
    &&& t.results == s.results
    &&& t.selected_index == s.selected_index
    &&& t.last_query == s.last_query
    &&& t.pending == s.pending
    &&& t.search_command_mode == s.search_command_mode
    &&& t.awaiting == s.awaiting
}

/// An event from the overlay window.
#[derive(Debug, Clone, PartialEq, Eq)]
pub enum OverlayEvent {
    Hotkey(i32),
    QueryChanged(String),
    MoveSelection(i32),
    Submit,
    Escape,
    ExternalShow,
    ExternalQuit,
}

/// The window's state when an event arrives: whether it is visible and
/// focused, its query text, its selected row, and whether the first index
/// is still being built.
pub struct ShellState {
    pub visible: bool,
    pub has_focus: bool,
    pub query_text: String,
    pub list_selection: Option<usize>,
    pub indexing: bool,
}

impl OverlayFlow {
    /// The selection is within the results (or 0 without any), and pending
    /// or started uninstalls are uninstall actions.
    pub open spec fn wf(self) -> bool {
        &&& (self.results@.len() == 0 ==> self.selected_index == 0)
        &&& (self.results@.len() > 0 ==> self.selected_index < self.results@.len())
        &&& (self.pending matches Some(p) ==> is_uninstall_id(p.uninstall_action.id@))
        &&& (self.awaiting matches Awaiting::Uninstall(p) ==> is_uninstall_id(p.uninstall_action.id@))
    }

    /// A hidden overlay with no results, no history and nothing pending.
    pub fn new() -> (f: Self)
        ensures
            f.wf(),
            !f.overlay.shown(),
            f.results@.len() == 0,
            f.selected_index == 0,
            f.last_query@.len() == 0,
            f.suppressed_titles@.len() == 0,
            f.pending is None,
            !f.search_command_mode,
            f.awaiting is Nothing,
    {
        OverlayFlow {
            overlay: OverlayState::default(),
            results: Vec::new(),
            selected_index: 0,
            last_query: String::new(),
            suppressed_titles: Vec::new(),
            pending: None,
            search_command_mode: false,
            awaiting: Awaiting::Nothing,
        }
    }

    fn show_commands_exec(cfg: &Config, query_text: &str) -> (cmds: Vec<OverlayCommand>)
        ensures
            commands_are(cmds@, show_commands(*cfg, query_text@)),
    {
        let mut cmds: Vec<OverlayCommand> = Vec::new();
        push_cmd(&mut cmds, OverlayCommand::ReconcileSuppressedTitles, Ghost(Seq::empty()), Ghost(Cmd::ReconcileSuppressedTitles));
        let ghost vs = seq![Cmd::ReconcileSuppressedTitles];
        push_cmd(&mut cmds, OverlayCommand::ShowAndFocus, Ghost(vs), Ghost(Cmd::ShowAndFocus));
        let ghost vs = vs.push(Cmd::ShowAndFocus);
        let ghost vs2 = vs;
        if cfg.clipboard_enabled {
            push_cmd(&mut cmds, OverlayCommand::CaptureClipboard, Ghost(vs), Ghost(Cmd::CaptureClipboard));
            proof {
                vs2 = vs.push(Cmd::CaptureClipboard);
            }
        }
        let ghost vs3 = vs2;
        if text::is_blank(query_text) {
            push_cmd(&mut cmds, OverlayCommand::ShowIdle, Ghost(vs2), Ghost(Cmd::ShowIdle));
            proof {
                vs3 = vs2.push(Cmd::ShowIdle);
            }
        }
        proof {
            assert(vs3 =~= show_commands(*cfg, query_text@));
        }
        cmds
    }

    fn close_session(&mut self, hide: OverlayCommand, Ghost(h): Ghost<Cmd>) -> (cmds: Vec<OverlayCommand>)
        requires
            command_is(hide, h),
        ensures
            session_closed(*old(self), *final(self)),
            final(self).overlay == old(self).overlay,
            old(self).wf() ==> final(self).wf(),
            commands_are(cmds@, close_commands(h)),
    {
        self.results = Vec::new();
        self.selected_index = 0;
        self.pending = None;
        self.last_query = String::new();
        let mut cmds: Vec<OverlayCommand> = Vec::new();
        push_cmd(&mut cmds, hide, Ghost(Seq::empty()), Ghost(h));
        push_cmd(&mut cmds, OverlayCommand::ClearQueryText, Ghost(Seq::<Cmd>::empty().push(h)), Ghost(Cmd::ClearQueryText));
        push_cmd(&mut cmds, OverlayCommand::ShowIdle, Ghost(Seq::<Cmd>::empty().push(h).push(Cmd::ClearQueryText)), Ghost(Cmd::ShowIdle));
        push_cmd(
            &mut cmds,
            OverlayCommand::ClearSearchSession,
            Ghost(Seq::<Cmd>::empty().push(h).push(Cmd::ClearQueryText).push(Cmd::ShowIdle)),
            Ghost(Cmd::ClearSearchSession),
        );
        proof {
            assert(seq![h, Cmd::ClearQueryText, Cmd::ShowIdle].push(Cmd::ClearSearchSession) =~= close_commands(h));
        }
        cmds
    }

    /// The global hotkey, with the window's visibility and focus as they are.
    pub fn on_hotkey(&mut self, cfg: &Config, visible: bool, has_focus: bool, query_text: &str) -> (cmds: Vec<
        OverlayCommand,
    >)
        requires
            old(self).wf(),
        ensures
            final(self).wf(),
            hotkey_step(*old(self), *final(self), cmds@, *cfg, visible, has_focus, query_text@),
    {
        self.overlay.set_visible(visible);
        let action = self.overlay.on_hotkey(has_focus);
        match action {
            HotkeyAction::Hide => self.close_session(OverlayCommand::Hide, Ghost(Cmd::Hide)),
            _ => Self::show_commands_exec(cfg, query_text),
        }
    }

    /// An outside request to show the overlay.
    pub fn on_external_show(&mut self, cfg: &Config, visible: bool, query_text: &str) -> (cmds: Vec<OverlayCommand>)
        requires
            old(self).wf(),
        ensures
            final(self).wf(),
            external_show_step(*old(self), *final(self), cmds@, *cfg, visible, query_text@),
    {
        self.overlay.set_visible(visible);
        Self::show_commands_exec(cfg, query_text)
    }

    /// An outside request to quit.
    pub fn on_external_quit(&mut self) -> (cmds: Vec<OverlayCommand>)
        requires
            old(self).wf(),
        ensures
            final(self).wf(),
            external_quit_step(*old(self), *final(self), cmds@),
    {
        self.last_query = String::new();
        let mut cmds: Vec<OverlayCommand> = Vec::new();
        push_cmd(&mut cmds, OverlayCommand::HideNow, Ghost(Seq::empty()), Ghost(Cmd::HideNow));
        push_cmd(&mut cmds, OverlayCommand::ClearSearchSession, Ghost(Seq::<Cmd>::empty().push(Cmd::HideNow)), Ghost(Cmd::ClearSearchSession));
        push_cmd(&mut cmds, OverlayCommand::Quit, Ghost(Seq::<Cmd>::empty().push(Cmd::HideNow).push(Cmd::ClearSearchSession)), Ghost(Cmd::Quit));
        proof {
            assert(seq![Cmd::HideNow, Cmd::ClearSearchSession].push(Cmd::Quit) =~= seq![
                Cmd::HideNow,
                Cmd::ClearSearchSession,
                Cmd::Quit,
            ]);
        }
        cmds
    }

    /// Escape.
    pub fn on_escape(&mut self) -> (cmds: Vec<OverlayCommand>)
        requires
            old(self).wf(),
        ensures
            final(self).wf(),
            escape_step(*old(self), *final(self), cmds@),
    {
        if self.overlay.on_escape() {
            self.close_session(OverlayCommand::HideNow, Ghost(Cmd::HideNow))
        } else {
            Vec::new()
        }
    }

    /// The query text changed to `query`.
    pub fn on_query_changed(&mut self, cfg: &Config, query: &str) -> (cmds: Vec<OverlayCommand>)
        requires
            old(self).wf(),
        ensures
            final(self).wf(),
            query_step(*old(self), *final(self), cmds@, *cfg, query@),
    {
        self.pending = None;
        let mut cmds: Vec<OverlayCommand> = Vec::new();
        let ghost shown_text: Seq<Cmd> = Seq::empty();
        let typed = match maybe_expand_uninstall_quick_shortcut(query, self.last_query.as_str()) {
            Some(expanded) => {
                let shown = text::owned(expanded.as_str());
                push_cmd(&mut cmds, OverlayCommand::SetQueryText(shown), Ghost(Seq::empty()), Ghost(Cmd::SetQueryText(expanded@)));
                proof {
                    shown_text = seq![Cmd::SetQueryText(expanded@)];
                }
                expanded
            },
            None => text::owned(query),
        };
        let trimmed = text::trim_str(typed.as_str());
        if trimmed.as_str().unicode_len() == 0 {
            self.results = Vec::new();
            self.selected_index = 0;
            self.last_query = String::new();
            push_cmd(&mut cmds, OverlayCommand::ClearSearchSession, Ghost(shown_text), Ghost(Cmd::ClearSearchSession));
            push_cmd(
                &mut cmds,
                OverlayCommand::ShowIdle,
                Ghost(shown_text.push(Cmd::ClearSearchSession)),
                Ghost(Cmd::ShowIdle),
            );
            proof {
                assert(shown_text.push(Cmd::ClearSearchSession).push(Cmd::ShowIdle) =~= shown_text + seq![
                    Cmd::ClearSearchSession,
                    Cmd::ShowIdle,
                ]);
            }
            return cmds;
        }
        if text::str_eq(trimmed.as_str(), self.last_query.as_str()) {
            return cmds;
        }
        let parsed = ParsedQuery::parse(trimmed.as_str(), cfg.search_dsl_enabled);
        let limit = result_limit_for_query(cfg.max_results as usize, &parsed);
        self.search_command_mode = parsed.command_mode;
        self.last_query = trimmed;
        push_cmd(
            &mut cmds,
            OverlayCommand::Search { query: parsed, limit },
            Ghost(shown_text),
            Ghost(Cmd::Search(self.last_query@, cfg.search_dsl_enabled, cfg.max_results as int)),
        );
        proof {
            assert(shown_text.push(Cmd::Search(self.last_query@, cfg.search_dsl_enabled, cfg.max_results as int))
                =~= shown_text + seq![Cmd::Search(self.last_query@, cfg.search_dsl_enabled, cfg.max_results as int)]);
        }
        cmds
    }

    /// The search asked for by the last `Search` command finished. A search
    /// that found results needs `shortcut_checks_ok` of them.
    pub fn on_search_finished(&mut self, outcome: Result<Vec<SearchItem>, String>, indexing: bool) -> (cmds: Vec<
        OverlayCommand,
    >)
        requires
            old(self).wf(),
            outcome matches Ok(found) ==> shortcut_checks_ok(found@),
        ensures
            final(self).wf(),
            search_finished_step(*old(self), *final(self), cmds@, outcome, indexing),
    {
        let ghost before = *self;
        let mut cmds: Vec<OverlayCommand> = Vec::new();
        match outcome {
            Ok(found) => {
                let ghost found_v = found@;
                let mut results = found;
                dedupe_overlay_results(&mut results);
                if self.suppressed_titles.len() > 0 {
                    filter_suppressed_uninstall_results(&mut results, self.suppressed_titles.as_slice());
                }
                proof {
                    assert(results@ == shown_results(found_v, self.suppressed_titles@));
                }
                self.results = results;
                self.selected_index = 0;
                if self.results.len() == 0 {
                    let message = if indexing {
                        text::owned(STATUS_ROW_INDEXING)
                    } else if self.search_command_mode {
                        text::owned(STATUS_ROW_NO_COMMAND_RESULTS)
                    } else {
                        text::owned(STATUS_ROW_NO_RESULTS)
                    };
                    let ghost m = message@;
                    push_cmd(&mut cmds, OverlayCommand::ShowStatusRow(message), Ghost(Seq::empty()), Ghost(Cmd::ShowStatusRow(m)));
                } else {
                    let rows = overlay_rows(self.results.as_slice(), self.search_command_mode);
                    push_cmd(
                        &mut cmds,
                        OverlayCommand::ShowRows { rows, selected: 0 },
                        Ghost(Seq::empty()),
                        Ghost(Cmd::ShowRows(self.results@, self.search_command_mode, 0)),
                    );
                }
            },
            Err(e) => {
                self.results = Vec::new();
                self.selected_index = 0;
                push_cmd(&mut cmds, OverlayCommand::ClearSearchSession, Ghost(Seq::empty()), Ghost(Cmd::ClearSearchSession));
                let no_rows = overlay_rows(self.results.as_slice(), false);
                push_cmd(
                    &mut cmds,
                    OverlayCommand::ShowRows { rows: no_rows, selected: 0 },
                    Ghost(Seq::<Cmd>::empty().push(Cmd::ClearSearchSession)),
                    Ghost(Cmd::ShowRows(Seq::empty(), false, 0)),
                );
                let message = text::concat("Search error: ", e.as_str());
                push_cmd(
                    &mut cmds,
                    OverlayCommand::SetStatusText(message),
                    Ghost(Seq::<Cmd>::empty().push(Cmd::ClearSearchSession).push(Cmd::ShowRows(Seq::empty(), false, 0))),
                    Ghost(Cmd::SetStatusText("Search error: "@ + e@)),
                );
                proof {
                    assert(seq![Cmd::ClearSearchSession, Cmd::ShowRows(Seq::empty(), false, 0)].push(
                        Cmd::SetStatusText("Search error: "@ + e@),
                    ) =~= seq![
                        Cmd::ClearSearchSession,
                        Cmd::ShowRows(Seq::empty(), false, 0),
                        Cmd::SetStatusText("Search error: "@ + e@),
                    ]);
                }
            },
        }
        cmds
    }

    /// Moving the selection by `direction` (up when negative, down when positive).
    pub fn on_move_selection(&mut self, direction: i32) -> (cmds: Vec<OverlayCommand>)
        requires
            old(self).wf(),
        ensures
            final(self).wf(),
            move_step(*old(self), *final(self), cmds@, direction as int),
    {
        let mut cmds: Vec<OverlayCommand> = Vec::new();
        if self.results.len() == 0 {
            return cmds;
        }
        let next = next_selection_index(self.selected_index, self.results.len(), direction);
        self.selected_index = next;
        push_cmd(&mut cmds, OverlayCommand::SelectRow(next), Ghost(Seq::empty()), Ghost(Cmd::SelectRow(next as int)));
        cmds
    }
    /// Enter, with the window's query text and selected row as they are, and
    /// whether the first index is still being built.
    pub fn on_submit(
        &mut self,
        cfg: &Config,
        plugins: &PluginRegistry,
        query_text: &str,
        list_selection: Option<usize>,
        indexing: bool,
    ) -> (cmds: Vec<OverlayCommand>)
        requires
            old(self).wf(),
        ensures
            final(self).wf(),
            submit_step(*old(self), *final(self), cmds@, *cfg, *plugins, query_text@, list_selection, indexing),
    {
        let mut cmds: Vec<OverlayCommand> = Vec::new();
        let n = self.results.len();
        if n == 0 {
            proof {
                reveal_strlit("Start typing to search");
            }
            if text::is_blank(query_text) {
                push_cmd(&mut cmds, OverlayCommand::ShowIdle, Ghost(Seq::empty()), Ghost(Cmd::ShowIdle));
                push_cmd(
                    &mut cmds,
                    OverlayCommand::ShowPlaceholderHint(text::owned(STATUS_ROW_TYPE_TO_SEARCH)),
                    Ghost(Seq::<Cmd>::empty().push(Cmd::ShowIdle)),
                    Ghost(Cmd::ShowPlaceholderHint("Start typing to search"@)),
                );
            } else if indexing {
                push_cmd(
                    &mut cmds,
                    OverlayCommand::ShowStatusRow(text::owned(STATUS_ROW_INDEXING)),
                    Ghost(Seq::empty()),
                    Ghost(Cmd::ShowStatusRow("Indexing in background..."@)),
                );
            } else {
                let parsed = ParsedQuery::parse(query_text, cfg.search_dsl_enabled);
                let message = if parsed.command_mode {
                    text::owned(STATUS_ROW_NO_COMMAND_RESULTS)
                } else {
                    text::owned(STATUS_ROW_NO_RESULTS)
                };
                let ghost m = message@;
                push_cmd(&mut cmds, OverlayCommand::ShowStatusRow(message), Ghost(Seq::empty()), Ghost(Cmd::ShowStatusRow(m)));
            }
            proof {
                assert(cmds@.len() == empty_submit_commands(*cfg, query_text@, indexing).len());
            }
            return cmds;
        }
        match list_selection {
            Some(ls) => {
                self.selected_index = if ls < n - 1 {
                    ls
                } else {
                    n - 1
                };
            },
            None => {},
        }
        let sel = self.selected_index;
        proof {
            reveal_strlit("action:uninstall:confirm");
            reveal_strlit("action:uninstall:cancel");
        }
        if self.pending.is_some() {
            if text::str_eq(self.results[sel].id.as_str(), ACTION_UNINSTALL_CONFIRM_ID) {
                let mut taken: Option<PendingUninstallConfirmation> = None;
                std::mem::swap(&mut taken, &mut self.pending);
                match taken {
                    Some(p) => {
                        self.overlay.on_escape();
                        let action_id = p.uninstall_action.id.clone();
                        let ghost l = SelectionLaunch::Uninstall { action_id: p.uninstall_action.id };
                        self.awaiting = Awaiting::Uninstall(p);
                        push_cmd(&mut cmds, OverlayCommand::HideNow, Ghost(Seq::empty()), Ghost(Cmd::HideNow));
                        push_cmd(
                            &mut cmds,
                            OverlayCommand::Perform(SelectionLaunch::Uninstall { action_id }),
                            Ghost(Seq::<Cmd>::empty().push(Cmd::HideNow)),
                            Ghost(Cmd::Perform(l)),
                        );
                    },
                    None => {},
                }
                return cmds;
            }
            if text::str_eq(self.results[sel].id.as_str(), ACTION_UNINSTALL_CANCEL_ID) {
                let mut taken: Option<PendingUninstallConfirmation> = None;
                std::mem::swap(&mut taken, &mut self.pending);
                match taken {
                    Some(p) => {
                        let ghost back = restored_index(p);
                        let m = p.previous_results.len();
                        let back_index = if m == 0 {
                            0
                        } else if p.previous_selected_index < m - 1 {
                            p.previous_selected_index
                        } else {
                            m - 1
                        };
                        let ghost first: Cmd;
                        if m == 0 {
                            let message = if p.previous_command_mode {
                                text::owned(STATUS_ROW_NO_COMMAND_RESULTS)
                            } else {
                                text::owned(STATUS_ROW_NO_RESULTS)
                            };
                            proof {
                                first = Cmd::ShowStatusRow(message@);
                            }
                            push_cmd(&mut cmds, OverlayCommand::ShowStatusRow(message), Ghost(Seq::empty()), Ghost(first));
                        } else {
                            let rows = overlay_rows(p.previous_results.as_slice(), p.previous_command_mode);
                            proof {
                                first = Cmd::ShowRows(p.previous_results@, p.previous_command_mode, back);
                            }
                            push_cmd(
                                &mut cmds,
                                OverlayCommand::ShowRows { rows, selected: back_index },
                                Ghost(Seq::empty()),
                                Ghost(first),
                            );
                        }
                        push_cmd(
                            &mut cmds,
                            OverlayCommand::SetStatusText(String::new()),
                            Ghost(Seq::<Cmd>::empty().push(first)),
                            Ghost(Cmd::SetStatusText(Seq::empty())),
                        );
                        self.results = p.previous_results;
                        self.selected_index = back_index;
                        proof {
                            assert(Seq::<Cmd>::empty().push(first).push(Cmd::SetStatusText(Seq::empty())) =~= seq![first]
                                + seq![Cmd::SetStatusText(Seq::empty())]);
                        }
                    },
                    None => {},
                }
                return cmds;
            }
            self.pending = None;
        }
        proof {
            reveal_strlit("__swiftfind_action_uninstall__:");
        }
        assert(ACTION_UNINSTALL_PREFIX@ == "__swiftfind_action_uninstall__:"@);
        if text::str_starts_with(self.results[sel].id.as_str(), ACTION_UNINSTALL_PREFIX) {
            let parsed = ParsedQuery::parse(query_text, cfg.search_dsl_enabled);
            let action = self.results[sel].clone();
            let previous = copy_items(&self.results);
            let confirmation = uninstall_confirmation_results(&action);
            self.pending = Some(
                PendingUninstallConfirmation {
                    uninstall_action: action,
                    previous_results: previous,
                    previous_selected_index: sel,
                    previous_command_mode: parsed.command_mode,
                },
            );
            self.results = confirmation;
            self.selected_index = 0;
            let rows = overlay_rows(self.results.as_slice(), true);
            push_cmd(
                &mut cmds,
                OverlayCommand::ShowRows { rows, selected: 0 },
                Ghost(Seq::empty()),
                Ghost(Cmd::ShowRows(self.results@, true, 0)),
            );
            push_cmd(
                &mut cmds,
                OverlayCommand::SetStatusText(String::new()),
                Ghost(Seq::<Cmd>::empty().push(Cmd::ShowRows(self.results@, true, 0))),
                Ghost(Cmd::SetStatusText(Seq::empty())),
            );
            return cmds;
        }
        let outcome = launch_overlay_selection(cfg, plugins, self.results.as_slice(), sel);
        let ghost r = outcome;
        match outcome {
            Ok(l) => {
                self.awaiting = Awaiting::Launch;
                let ghost lv = l;
                push_cmd(&mut cmds, OverlayCommand::Perform(l), Ghost(Seq::empty()), Ghost(Cmd::Perform(lv)));
            },
            Err(e) => {
                let message = text::concat("Launch error: ", e.as_str());
                push_cmd(
                    &mut cmds,
                    OverlayCommand::SetStatusText(message),
                    Ghost(Seq::empty()),
                    Ghost(Cmd::SetStatusText("Launch error: "@ + e@)),
                );
            },
        }
        proof {
            let s0 = *old(self);
            assert(selection_outcome(*cfg, *plugins, old(self).results@, sel as int, r));
            assert(sel as int == submit_index(s0, list_selection));
            assert(!(s0.pending is Some && s0.results@[sel as int].id@ == "action:uninstall:confirm"@));
            assert(!(s0.pending is Some && s0.results@[sel as int].id@ == "action:uninstall:cancel"@));
            assert(!is_uninstall_id(s0.results@[sel as int].id@));
            assert(self.pending is None);
        }
        cmds
    }

    /// The launch or uninstall asked for by the last `Perform` command finished.
    pub fn on_perform_finished(&mut self, outcome: Result<(), String>) -> (cmds: Vec<OverlayCommand>)
        requires
            old(self).wf(),
        ensures
            final(self).wf(),
            perform_finished_step(*old(self), *final(self), cmds@, outcome),
    {
        let mut cmds: Vec<OverlayCommand> = Vec::new();
        let mut awaited = Awaiting::Nothing;
        std::mem::swap(&mut awaited, &mut self.awaiting);
        match awaited {
            Awaiting::Nothing => {},
            Awaiting::Launch => {
                match outcome {
                    Ok(()) => {
                        push_cmd(
                            &mut cmds,
                            OverlayCommand::SetStatusText(String::new()),
                            Ghost(Seq::empty()),
                            Ghost(Cmd::SetStatusText(Seq::empty())),
                        );
                        self.overlay.on_escape();
                        self.results = Vec::new();
                        self.selected_index = 0;
                        self.pending = None;
                        self.last_query = String::new();
                        let ghost v1 = Seq::<Cmd>::empty().push(Cmd::SetStatusText(Seq::empty()));
                        let ghost v2 = v1.push(Cmd::HideNow);
                        let ghost v3 = v2.push(Cmd::ClearQueryText);
                        let ghost v4 = v3.push(Cmd::ShowIdle);
                        push_cmd(&mut cmds, OverlayCommand::HideNow, Ghost(v1), Ghost(Cmd::HideNow));
                        push_cmd(&mut cmds, OverlayCommand::ClearQueryText, Ghost(v2), Ghost(Cmd::ClearQueryText));
                        push_cmd(&mut cmds, OverlayCommand::ShowIdle, Ghost(v3), Ghost(Cmd::ShowIdle));
                        push_cmd(&mut cmds, OverlayCommand::ClearSearchSession, Ghost(v4), Ghost(Cmd::ClearSearchSession));
                        proof {
                            assert(v4.push(Cmd::ClearSearchSession) =~= seq![Cmd::SetStatusText(Seq::empty())]
                                + close_commands(Cmd::HideNow));
                        }
                    },
                    Err(e) => {
                        let message = text::concat("Launch error: ", e.as_str());
                        push_cmd(
                            &mut cmds,
                            OverlayCommand::SetStatusText(message),
                            Ghost(Seq::empty()),
                            Ghost(Cmd::SetStatusText("Launch error: "@ + e@)),
                        );
                    },
                }
            },
            Awaiting::Uninstall(p) => {
                match outcome {
                    Ok(()) => {
                        track_uninstall_title_suppression(&mut self.suppressed_titles, p.uninstall_action.title.as_str());
                        self.results = Vec::new();
                        self.selected_index = 0;
                        self.last_query = String::new();
                        let ghost v1 = Seq::<Cmd>::empty().push(Cmd::SetStatusText(Seq::empty()));
                        let ghost v2 = v1.push(Cmd::ClearQueryText);
                        let ghost v3 = v2.push(Cmd::ShowIdle);
                        push_cmd(&mut cmds, OverlayCommand::SetStatusText(String::new()), Ghost(Seq::empty()), Ghost(Cmd::SetStatusText(Seq::empty())));
                        push_cmd(&mut cmds, OverlayCommand::ClearQueryText, Ghost(v1), Ghost(Cmd::ClearQueryText));
                        push_cmd(&mut cmds, OverlayCommand::ShowIdle, Ghost(v2), Ghost(Cmd::ShowIdle));
                        push_cmd(&mut cmds, OverlayCommand::ClearSearchSession, Ghost(v3), Ghost(Cmd::ClearSearchSession));
                        proof {
                            assert(v3.push(Cmd::ClearSearchSession) =~= seq![
                                Cmd::SetStatusText(Seq::empty()),
                                Cmd::ClearQueryText,
                                Cmd::ShowIdle,
                                Cmd::ClearSearchSession,
                            ]);
                        }
                    },
                    Err(e) => {
                        self.pending = Some(p);
                        let message = text::concat("Launch error: ", e.as_str());
                        push_cmd(&mut cmds, OverlayCommand::ShowAndFocus, Ghost(Seq::empty()), Ghost(Cmd::ShowAndFocus));
                        push_cmd(
                            &mut cmds,
                            OverlayCommand::SetStatusText(message),
                            Ghost(Seq::<Cmd>::empty().push(Cmd::ShowAndFocus)),
                            Ghost(Cmd::SetStatusText("Launch error: "@ + e@)),
                        );
                    },
                }
            },
        }
        cmds
    }
    /// Keeps the suppressed titles whose applications are no longer
    /// registered, or could not be checked; `registered` holds the check for
    /// each title, in order.
    pub fn reconcile_suppressed_titles(&mut self, registered: &[Option<bool>])
        requires
            old(self).wf(),
            registered@.len() == old(self).suppressed_titles@.len(),
        ensures
            final(self).wf(),
            final(self).suppressed_titles@ == kept_titles(
                old(self).suppressed_titles@,
                registered@,
                registered@.len() as int,
            ),
            same_but_suppressed(*old(self), *final(self)),
    {
        let mut kept: Vec<String> = Vec::new();
        let mut i: usize = 0;
        while i < registered.len()
            invariant
                i <= registered@.len(),
                registered@.len() == self.suppressed_titles@.len(),
                kept@ == kept_titles(self.suppressed_titles@, registered@, i as int),
            decreases registered@.len() - i,
        {
            let still = match registered[i] {
                Some(b) => b,
                None => false,
            };
            if !still {
                kept.push(self.suppressed_titles[i].clone());
            }
            i = i + 1;
        }
        self.suppressed_titles = kept;
    }

    /// Handles an event from the window, with the window's state as it is.
    pub fn handle_event(&mut self, event: OverlayEvent, cfg: &Config, plugins: &PluginRegistry, shell: &ShellState) -> (cmds:
        Vec<OverlayCommand>)
        requires
            old(self).wf(),
        ensures
            final(self).wf(),
            match event {
                OverlayEvent::Hotkey(_) => hotkey_step(
                    *old(self),
                    *final(self),
                    cmds@,
                    *cfg,
                    shell.visible,
                    shell.has_focus,
                    shell.query_text@,
                ),
                OverlayEvent::QueryChanged(q) => query_step(*old(self), *final(self), cmds@, *cfg, q@),
                OverlayEvent::MoveSelection(d) => move_step(*old(self), *final(self), cmds@, d as int),
                OverlayEvent::Submit => submit_step(
                    *old(self),
                    *final(self),
                    cmds@,
                    *cfg,
                    *plugins,
                    shell.query_text@,
                    shell.list_selection,
                    shell.indexing,
                ),
                OverlayEvent::Escape => escape_step(*old(self), *final(self), cmds@),
                OverlayEvent::ExternalShow => external_show_step(
                    *old(self),
                    *final(self),
                    cmds@,
                    *cfg,
                    shell.visible,
                    shell.query_text@,
                ),
                OverlayEvent::ExternalQuit => external_quit_step(*old(self), *final(self), cmds@),
            },
    {
        match event {
            OverlayEvent::Hotkey(_) => self.on_hotkey(cfg, shell.visible, shell.has_focus, shell.query_text.as_str()),
            OverlayEvent::QueryChanged(q) => self.on_query_changed(cfg, q.as_str()),
            OverlayEvent::MoveSelection(d) => self.on_move_selection(d),
            OverlayEvent::Submit => self.on_submit(
                cfg,
                plugins,
                shell.query_text.as_str(),
                shell.list_selection,
                shell.indexing,
            ),
            OverlayEvent::Escape => self.on_escape(),
            OverlayEvent::ExternalShow => self.on_external_show(cfg, shell.visible, shell.query_text.as_str()),
            OverlayEvent::ExternalQuit => self.on_external_quit(),
        }
    }
}

/// Choosing an uninstall and then "cancel" on its confirmation brings back
/// the results and the selection from before.
pub proof fn law_cancel_restores_results(
    s: OverlayFlow,
    t: OverlayFlow,
    u: OverlayFlow,
    c1: Seq<OverlayCommand>,
    c2: Seq<OverlayCommand>,
    cfg: Config,
    plugins: PluginRegistry,
    query_text: Seq<char>,
    list_selection: Option<usize>,
    indexing: bool,
    query_text2: Seq<char>,
    indexing2: bool,
)
    requires
        s.wf(),
        s.pending is None,
        s.results@.len() > 0,
        is_uninstall_id(s.results@[submit_index(s, list_selection)].id@),
        submit_step(s, t, c1, cfg, plugins, query_text, list_selection, indexing),
        submit_step(t, u, c2, cfg, plugins, query_text2, Some(1usize), indexing2),
    ensures
        u.results@ == s.results@,
        u.selected_index == submit_index(s, list_selection),
        u.pending is None,
{
    reveal_strlit("action:uninstall:confirm");
    reveal_strlit("action:uninstall:cancel");
    reveal_strlit("__swiftfind_action_uninstall__:");
    let sel = submit_index(s, list_selection);
    assert(confirmation_results(s.results@[sel], t.results@));
    assert(submit_index(t, Some(1usize)) == 1);
    assert(t.results@[1].id@ == "action:uninstall:cancel"@);
    assert(t.results@[1].id@ != "action:uninstall:confirm"@) by {
        assert(t.results@[1].id@[18] != "action:uninstall:confirm"@[18]);
    }
}

} // verus!
