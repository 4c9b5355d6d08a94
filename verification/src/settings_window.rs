//! The values the settings dialog accepts.
use vstd::prelude::*;

use crate::settings::{hotkey_validation, validate_hotkey, validate_max_results};
use crate::runtime::parse_unsigned;
use crate::text;

verus! {

/// The settings the dialog hands back.
#[derive(Debug, Clone, PartialEq, Eq)]
pub struct SettingsDialogResult {
    pub hotkey: String,
    pub max_results: u16,
    pub launch_at_startup: bool,
}

/// What the dialog's fields give: the canonical hotkey, a result count from
/// 5 to 100, and the startup flag; or the first problem, hotkey first.
pub open spec fn dialog_settings(hotkey_raw: Seq<char>, max_raw: Seq<char>) -> Result<(Seq<char>, int), Seq<char>> {
    let n = parse_unsigned(text::trim(max_raw), u16::MAX as int);
    match hotkey_validation(hotkey_raw) {
        Err(e) => Err(e),
        Ok(h) => match n {
            None => Err("Max results must be a number."@),
            Some(v) => if 5 <= v <= 100 {
                Ok((h, v))
            } else {
                Err("Max results must be between 5 and 100."@)
            },
        },
    }
}

pub fn settings_from_fields(hotkey_raw: &str, max_raw: &str, launch_at_startup: bool) -> (r: Result<SettingsDialogResult, String>)
    ensures
        match r {
            Ok(s) => dialog_settings(hotkey_raw@, max_raw@) == Ok::<(Seq<char>, int), Seq<char>>(
                (s.hotkey@, s.max_results as int),
            ) && s.launch_at_startup == launch_at_startup,
            Err(e) => dialog_settings(hotkey_raw@, max_raw@) == Err::<(Seq<char>, int), Seq<char>>(e@),
        },
{
    let hotkey = match validate_hotkey(hotkey_raw) {
        Ok(h) => h,
        Err(e) => {
            return Err(e);
        },
    };
    let t = text::trimmed_chars(max_raw);
    let n = match crate::runtime::parse_unsigned_text(&t, 65535) {
        Some(v) => v as u16,
        None => {
            return Err(text::owned("Max results must be a number."));
        },
    };
    match validate_max_results(n) {
        Ok(()) => {},
        Err(e) => {
            return Err(e);
        },
    }
    Ok(SettingsDialogResult { hotkey, max_results: n, launch_at_startup })
}

/// The settings dialog. This library has no window of its own to show it in:
/// the answer is always an error, and a window shell collects the fields and
/// hands them to `settings_from_fields`.
pub fn open_settings_dialog(cfg: &crate::config::Config) -> (r: Result<Option<SettingsDialogResult>, String>)
    ensures
        r matches Err(e) && e@ == "settings UI is only supported on Windows"@,
{
    Err(text::owned("settings UI is only supported on Windows"))
}

} // verus!
