//! What activating an overlay result does: which launch, action or copy it
//! asks for, or why it cannot go ahead.
use vstd::prelude::*;

use crate::action_registry::{
    ACTION_CLEAR_CLIPBOARD_ID, ACTION_DIAGNOSTICS_BUNDLE_ID, ACTION_OPEN_CONFIG_ID, ACTION_OPEN_LOGS_ID,
    ACTION_REBUILD_INDEX_ID,
};
use crate::config::Config;
use crate::model::SearchItem;
use crate::plugin_sdk::{PluginAction, PluginActionKind, PluginRegistry};
use crate::query_dsl::strings;
use crate::search::kind_is;
use crate::settings::{decimal, decimal_u64};
use crate::text;
use crate::uninstall_registry::ACTION_UNINSTALL_PREFIX;

verus! {

/// What the selected result asks the runtime to do.
#[derive(Debug, Clone, PartialEq, Eq)]
pub enum SelectionLaunch {
    /// Start the uninstaller behind an uninstall action.
    Uninstall { action_id: String },
    OpenLogs,
    RebuildIndex,
    ClearClipboard,
    /// Open the configuration file.
    OpenConfig { path: String },
    DiagnosticsBundle,
    /// Open the path of a plugin action.
    OpenPluginPath { path: String },
    /// Run the command of a plugin action.
    RunPluginCommand { command: String, args: Vec<String> },
    /// Copy a clipboard history entry back to the clipboard.
    CopyClipboard { result_id: String },
    /// Launch an indexed item.
    LaunchItem { id: String },
}

/// What a plugin action asks for, or why it is refused.
pub open spec fn plugin_outcome(cfg: Config, a: PluginAction, r: Result<SelectionLaunch, String>) -> bool {
    match a.kind {
        PluginActionKind::OpenPath { path } => r matches Ok(SelectionLaunch::OpenPluginPath { path: p }) && p@ == path@,
        PluginActionKind::Command { command, args } => if cfg.plugins_safe_mode {
            r matches Err(e) && e@ == "plugin command execution blocked: plugins_safe_mode is enabled in config"@
        } else if text::trim(command@).len() == 0 {
            r matches Err(e) && e@ == "plugin command action missing command"@
        } else {
            r matches Ok(SelectionLaunch::RunPluginCommand { command: c, args: xs }) && c@ == command@ && strings(
                xs@,
            ) == strings(args@)
        },
    }
}

/// What an action result asks for: an uninstall, a built-in action, or the
/// plugin action with its result id.
pub open spec fn action_outcome(cfg: Config, plugins: PluginRegistry, id: Seq<char>, r: Result<SelectionLaunch, String>) -> bool {
    if text::starts_with(id, "__swiftfind_action_uninstall__:"@) {
        r matches Ok(SelectionLaunch::Uninstall { action_id }) && action_id@ == id
    } else if id == "__swiftfind_action_open_logs__"@ {
        r == Ok::<SelectionLaunch, String>(SelectionLaunch::OpenLogs)
    } else if id == "__swiftfind_action_rebuild_index__"@ {
        r == Ok::<SelectionLaunch, String>(SelectionLaunch::RebuildIndex)
    } else if id == "__swiftfind_action_clear_clipboard__"@ {
        r == Ok::<SelectionLaunch, String>(SelectionLaunch::ClearClipboard)
    } else if id == "__swiftfind_action_open_config__"@ {
        r matches Ok(SelectionLaunch::OpenConfig { path }) && path@ == cfg.config_path@
    } else if id == "__swiftfind_action_diagnostics_bundle__"@ {
        r == Ok::<SelectionLaunch, String>(SelectionLaunch::DiagnosticsBundle)
    } else if exists|i: int| 0 <= i < plugins.actions@.len() && (#[trigger] plugins.actions@[i]).result_id@ == id {
        exists|i: int|
            0 <= i < plugins.actions@.len() && (#[trigger] plugins.actions@[i]).result_id@ == id && plugin_outcome(
                cfg,
                plugins.actions@[i],
                r,
            )
    } else {
        r matches Err(e) && e@ == "unknown action"@
    }
}

/// What activating `results[selected_index]` asks for: nothing when there
/// are no results or the index is past them; an action result is run as an
/// action, a clipboard result is copied back, any other result is launched.
pub open spec fn selection_outcome(
    cfg: Config,
    plugins: PluginRegistry,
    results: Seq<SearchItem>,
    selected_index: int,
    r: Result<SelectionLaunch, String>,
) -> bool {
    if results.len() == 0 {
        r matches Err(e) && e@ == "no result selected"@
    } else if selected_index >= results.len() {
        r matches Err(e) && e@ == "selected index out of range: "@ + decimal(selected_index as nat) + " (len="@
            + decimal(results.len()) + ")"@
    } else {
        let item = results[selected_index];
        if kind_is(item.kind@, "action"@) {
            action_outcome(cfg, plugins, item.id@, r)
        } else if kind_is(item.kind@, "clipboard"@) {
            r matches Ok(SelectionLaunch::CopyClipboard { result_id }) && result_id@ == item.id@
        } else {
            r matches Ok(SelectionLaunch::LaunchItem { id }) && id@ == item.id@
        }
    }
}

fn copy_strings(v: &Vec<String>) -> (out: Vec<String>)
    ensures
        strings(out@) == strings(v@),
{
    let mut out: Vec<String> = Vec::new();
    let mut i: usize = 0;
    while i < v.len()
        invariant
            i <= v@.len(),
            strings(out@) == strings(v@.take(i as int)),
        decreases v@.len() - i,
    {
        out.push(text::owned(v[i].as_str()));
        proof {
            assert(strings(v@.take((i + 1) as int)) =~= strings(v@.take(i as int)).push(v@[i as int]@));
            assert(strings(out@) =~= strings(v@.take(i as int)).push(v@[i as int]@));
        }
        i = i + 1;
    }
    proof {
        assert(v@.take(v@.len() as int) =~= v@);
    }
    out
}

fn plugin_launch(cfg: &Config, action: &PluginAction) -> (r: Result<SelectionLaunch, String>)
    ensures
        plugin_outcome(*cfg, *action, r),
{
    match &action.kind {
        PluginActionKind::OpenPath { path } => Ok(SelectionLaunch::OpenPluginPath { path: text::owned(path.as_str()) }),
        PluginActionKind::Command { command, args } => {
            if cfg.plugins_safe_mode {
                return Err(text::owned("plugin command execution blocked: plugins_safe_mode is enabled in config"));
            }
            if text::is_blank(command.as_str()) {
                return Err(text::owned("plugin command action missing command"));
            }
            Ok(SelectionLaunch::RunPluginCommand { command: text::owned(command.as_str()), args: copy_strings(args) })
        },
    }
}

fn action_launch(cfg: &Config, plugins: &PluginRegistry, id: &str) -> (r: Result<SelectionLaunch, String>)
    ensures
        action_outcome(*cfg, *plugins, id@, r),
{
    proof {
        reveal_strlit("__swiftfind_action_uninstall__:");
    }
    assert(ACTION_UNINSTALL_PREFIX@ == "__swiftfind_action_uninstall__:"@);
    if text::str_starts_with(id, ACTION_UNINSTALL_PREFIX) {
        return Ok(SelectionLaunch::Uninstall { action_id: text::owned(id) });
    }
    if text::str_eq(id, ACTION_OPEN_LOGS_ID) {
        return Ok(SelectionLaunch::OpenLogs);
    }
    if text::str_eq(id, ACTION_REBUILD_INDEX_ID) {
        return Ok(SelectionLaunch::RebuildIndex);
    }
    if text::str_eq(id, ACTION_CLEAR_CLIPBOARD_ID) {
        return Ok(SelectionLaunch::ClearClipboard);
    }
    if text::str_eq(id, ACTION_OPEN_CONFIG_ID) {
        return Ok(SelectionLaunch::OpenConfig { path: text::owned(cfg.config_path.as_str()) });
    }
    if text::str_eq(id, ACTION_DIAGNOSTICS_BUNDLE_ID) {
        return Ok(SelectionLaunch::DiagnosticsBundle);
    }
    match plugins.action_for(id) {
        Some(action) => plugin_launch(cfg, action),
        None => Err(text::owned("unknown action")),
    }
}

/// Decides what activating the selected overlay result does; the caller
/// carries it out.
pub fn launch_overlay_selection(
    cfg: &Config,
    plugins: &PluginRegistry,
    results: &[SearchItem],
    selected_index: usize,
) -> (r: Result<SelectionLaunch, String>)
    ensures
        selection_outcome(*cfg, *plugins, results@, selected_index as int, r),
{
    if results.len() == 0 {
        return Err(text::owned("no result selected"));
    }
    if selected_index >= results.len() {
        let mut msg = text::owned("selected index out of range: ");
        let a = decimal_u64(selected_index as u64);
        let a_s = text::string_of(&a);
        text::push_str(&mut msg, a_s.as_str());
        text::push_str(&mut msg, " (len=");
        let b = decimal_u64(results.len() as u64);
        let b_s = text::string_of(&b);
        text::push_str(&mut msg, b_s.as_str());
        text::push_str(&mut msg, ")");
        return Err(msg);
    }
    let item = &results[selected_index];
    if text::eq_ignore_ascii_case(item.kind.as_str(), "action") {
        return action_launch(cfg, plugins, item.id.as_str());
    }
    if text::eq_ignore_ascii_case(item.kind.as_str(), "clipboard") {
        return Ok(SelectionLaunch::CopyClipboard { result_id: text::owned(item.id.as_str()) });
    }
    Ok(SelectionLaunch::LaunchItem { id: text::owned(item.id.as_str()) })
}

} // verus!
