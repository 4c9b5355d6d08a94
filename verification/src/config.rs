//! Configuration: the search modes, the web search providers, the settings
//! record and its validation.
use vstd::prelude::*;

use crate::settings::{hotkey_validation, validate_hotkey};
use crate::text;

verus! {

/// Which kinds of results a query is restricted to.
#[derive(Debug, Clone, Copy, PartialEq, Eq, Structural)]
pub enum SearchMode {
    All,
    Apps,
    Files,
    Actions,
    Clipboard,
}

impl Default for SearchMode {
    fn default() -> (m: Self)
        ensures
            m == SearchMode::All,
    {
        SearchMode::All
    }
}

/// The mode a (trimmed, ASCII-lowercased) name stands for.
pub open spec fn mode_from_name(n: Seq<char>) -> Option<SearchMode> {
    if n == "all"@ {
        Some(SearchMode::All)
    } else if n == "apps"@ || n == "app"@ {
        Some(SearchMode::Apps)
    } else if n == "files"@ || n == "file"@ {
        Some(SearchMode::Files)
    } else if n == "actions"@ || n == "action"@ {
        Some(SearchMode::Actions)
    } else if n == "clipboard"@ || n == "clip"@ {
        Some(SearchMode::Clipboard)
    } else {
        None
    }
}

/// The mode that `SearchMode::parse` reads from `v`.
pub open spec fn parse_mode(v: Seq<char>) -> Option<SearchMode> {
    mode_from_name(text::ascii_lower(text::trim(v)))
}

/// `mode_from_name` on a character vector.
pub fn mode_from_name_chars(n: &Vec<char>) -> (m: Option<SearchMode>)
    ensures
        m == mode_from_name(n@),
{
    if text::vec_eq_str(n, "all") {
        Some(SearchMode::All)
    } else if text::vec_eq_str(n, "apps") || text::vec_eq_str(n, "app") {
        Some(SearchMode::Apps)
    } else if text::vec_eq_str(n, "files") || text::vec_eq_str(n, "file") {
        Some(SearchMode::Files)
    } else if text::vec_eq_str(n, "actions") || text::vec_eq_str(n, "action") {
        Some(SearchMode::Actions)
    } else if text::vec_eq_str(n, "clipboard") || text::vec_eq_str(n, "clip") {
        Some(SearchMode::Clipboard)
    } else {
        None
    }
}

/// `SearchMode::parse` on a character vector.
pub fn parse_mode_chars(v: &Vec<char>) -> (m: Option<SearchMode>)
    ensures
        m == parse_mode(v@),
{
    let (i, j) = text::trim_bounds(v, 0, v.len());
    let t = text::slice_vec(v, i, j);
    proof {
        assert(v@.subrange(0, v.len() as int) =~= v@);
    }
    let n = text::lower_vec(&t);
    mode_from_name_chars(&n)
}

impl SearchMode {
    pub fn parse(value: &str) -> (m: Option<Self>)
        ensures
            m == parse_mode(value@),
    {
        let v = text::chars_of(value);
        parse_mode_chars(&v)
    }
}

/// The engine behind web search command actions.
#[derive(Debug, Clone, Copy, PartialEq, Eq, Structural)]
pub enum WebSearchProvider {
    Duckduckgo,
    Google,
    Bing,
    Brave,
    Startpage,
    Ecosia,
    Yahoo,
    Custom,
}

impl Default for WebSearchProvider {
    fn default() -> (p: Self)
        ensures
            p == WebSearchProvider::Duckduckgo,
    {
        WebSearchProvider::Duckduckgo
    }
}

/// The display label of a provider.
pub open spec fn provider_label(p: WebSearchProvider) -> Seq<char> {
    match p {
        WebSearchProvider::Duckduckgo => "DuckDuckGo"@,
        WebSearchProvider::Google => "Google"@,
        WebSearchProvider::Bing => "Bing"@,
        WebSearchProvider::Brave => "Brave"@,
        WebSearchProvider::Startpage => "Startpage"@,
        WebSearchProvider::Ecosia => "Ecosia"@,
        WebSearchProvider::Yahoo => "Yahoo"@,
        WebSearchProvider::Custom => "Custom"@,
    }
}

impl WebSearchProvider {
    pub fn label(self) -> (s: &'static str)
        ensures
            s@ == provider_label(self),
    {
        match self {
            WebSearchProvider::Duckduckgo => "DuckDuckGo",
            WebSearchProvider::Google => "Google",
            WebSearchProvider::Bing => "Bing",
            WebSearchProvider::Brave => "Brave",
            WebSearchProvider::Startpage => "Startpage",
            WebSearchProvider::Ecosia => "Ecosia",
            WebSearchProvider::Yahoo => "Yahoo",
            WebSearchProvider::Custom => "Custom",
        }
    }
}


// ---------------------------------------------------------------------------
// The configuration record
// ---------------------------------------------------------------------------

/// The configuration format version this build writes.
pub const CURRENT_CONFIG_VERSION: u32 = 3;

pub const LEGACY_IDLE_CACHE_TRIM_MS_V1: u32 = 1200;

pub const LEGACY_ACTIVE_MEMORY_TARGET_MB_V1: u16 = 80;

pub const DEFAULT_IDLE_CACHE_TRIM_MS: u32 = 900;

pub const DEFAULT_ACTIVE_MEMORY_TARGET_MB: u16 = 72;

/// All settings. Paths are held as the text of the path.
#[derive(Debug, Clone, PartialEq, Eq)]
pub struct Config {
    pub version: u32,
    pub max_results: u16,
    pub index_db_path: String,
    pub config_path: String,
    pub discovery_roots: Vec<String>,
    pub discovery_exclude_roots: Vec<String>,
    pub hotkey: String,
    pub launch_at_startup: bool,
    pub hotkey_help: String,
    pub hotkey_recommended: Vec<String>,
    pub search_mode_default: SearchMode,
    pub search_dsl_enabled: bool,
    pub web_search_provider: WebSearchProvider,
    pub web_search_custom_template: String,
    pub web_search_browser_default_enabled: bool,
    pub clipboard_enabled: bool,
    pub clipboard_retention_minutes: u32,
    pub clipboard_exclude_sensitive_patterns: Vec<String>,
    pub plugins_enabled: bool,
    pub plugin_paths: Vec<String>,
    pub plugins_safe_mode: bool,
    pub idle_cache_trim_ms: u32,
    pub active_memory_target_mb: u16,
    pub show_files: bool,
    pub show_folders: bool,
    pub windows_search_enabled: bool,
    pub windows_search_fallback_filesystem: bool,
    pub uninstall_actions_enabled: bool,
}

/// Why a configuration could not be read, written or accepted.
#[derive(Debug, Clone, PartialEq, Eq)]
pub enum ConfigError {
    Io(String),
    Parse(String),
    Validation(String),
}

impl ConfigError {
    /// The error as shown to a user.
    pub fn message(&self) -> (m: String)
        ensures
            m@ == match *self {
                ConfigError::Io(e) => "io error: "@ + e@,
                ConfigError::Parse(e) => "parse error: "@ + e@,
                ConfigError::Validation(e) => "validation error: "@ + e@,
            },
    {
        match self {
            ConfigError::Io(e) => text::concat("io error: ", e.as_str()),
            ConfigError::Parse(e) => text::concat("parse error: ", e.as_str()),
            ConfigError::Validation(e) => text::concat("validation error: ", e.as_str()),
        }
    }
}

fn strings_from(items: &[&str]) -> (out: Vec<String>)
    ensures
        out@.len() == items@.len(),
        forall|i: int| 0 <= i < items@.len() ==> #[trigger] out@[i]@ == items@[i]@,
{
    let mut out: Vec<String> = Vec::new();
    let mut i: usize = 0;
    while i < items.len()
        invariant
            i <= items@.len(),
            out@.len() == i,
            forall|k: int| 0 <= k < i ==> #[trigger] out@[k]@ == items@[k]@,
        decreases items@.len() - i,
    {
        out.push(text::owned(items[i]));
        i = i + 1;
    }
    out
}

/// The hotkeys that the configuration file suggests.
pub open spec fn recommended_hotkeys() -> Seq<Seq<char>> {
    seq!["Ctrl+Shift+Space"@, "Ctrl+Alt+Space"@, "Alt+Shift+Space"@, "Ctrl+Shift+P"@, "Ctrl+Alt+P"@]
}

/// Clipboard texts holding one of these are not recorded.
pub open spec fn default_sensitive_patterns() -> Seq<Seq<char>> {
    seq!["password"@, "passcode"@, "otp"@, "token"@, "secret"@, "apikey"@, "api_key"@]
}

/// The texts of a sequence of strings.
pub open spec fn texts(v: Seq<String>) -> Seq<Seq<char>> {
    v.map_values(|s: String| s@)
}

impl Config {
    /// The default settings, with the paths that depend on where the
    /// application keeps its data: the config file, the index database, the
    /// plugin folder and the discovery roots.
    pub fn defaults_at(
        config_path: &str,
        index_db_path: &str,
        plugin_dir: &str,
        discovery_roots: Vec<String>,
        discovery_exclude_roots: Vec<String>,
    ) -> (c: Config)
        ensures
            c.version == CURRENT_CONFIG_VERSION,
            c.max_results == 20,
            c.index_db_path@ == index_db_path@,
            c.config_path@ == config_path@,
            c.discovery_roots@ == discovery_roots@,
            c.discovery_exclude_roots@ == discovery_exclude_roots@,
            c.hotkey@ == "Ctrl+Shift+Space"@,
            !c.launch_at_startup,
            c.hotkey_help@
                == "Set `hotkey` as Modifier+Modifier+Key (example: Ctrl+Shift+Space), then restart SwiftFind."@,
            texts(c.hotkey_recommended@) == recommended_hotkeys(),
            c.search_mode_default == SearchMode::All,
            c.search_dsl_enabled,
            c.web_search_provider == WebSearchProvider::Google,
            c.web_search_custom_template@.len() == 0,
            c.web_search_browser_default_enabled,
            c.clipboard_enabled,
            c.clipboard_retention_minutes == 480,
            texts(c.clipboard_exclude_sensitive_patterns@) == default_sensitive_patterns(),
            c.plugins_enabled,
            texts(c.plugin_paths@) == seq![plugin_dir@],
            c.plugins_safe_mode,
            c.idle_cache_trim_ms == 900,
            c.active_memory_target_mb == 72,
            c.show_files,
            c.show_folders,
            c.windows_search_enabled,
            c.windows_search_fallback_filesystem,
            c.uninstall_actions_enabled,
    {
        let recommended = strings_from(
            &["Ctrl+Shift+Space", "Ctrl+Alt+Space", "Alt+Shift+Space", "Ctrl+Shift+P", "Ctrl+Alt+P"],
        );
        let patterns = strings_from(
            &["password", "passcode", "otp", "token", "secret", "apikey", "api_key"],
        );
        let mut plugin_paths: Vec<String> = Vec::new();
        plugin_paths.push(text::owned(plugin_dir));
        let c = Config {
            version: CURRENT_CONFIG_VERSION,
            max_results: 20,
            index_db_path: text::owned(index_db_path),
            config_path: text::owned(config_path),
            discovery_roots,
            discovery_exclude_roots,
            hotkey: text::owned("Ctrl+Shift+Space"),
            launch_at_startup: false,
            hotkey_help: text::owned(
                "Set `hotkey` as Modifier+Modifier+Key (example: Ctrl+Shift+Space), then restart SwiftFind.",
            ),
            hotkey_recommended: recommended,
            search_mode_default: SearchMode::All,
            search_dsl_enabled: true,
            web_search_provider: WebSearchProvider::Google,
            web_search_custom_template: String::new(),
            web_search_browser_default_enabled: true,
            clipboard_enabled: true,
            clipboard_retention_minutes: 8 * 60,
            clipboard_exclude_sensitive_patterns: patterns,
            plugins_enabled: true,
            plugin_paths,
            plugins_safe_mode: true,
            idle_cache_trim_ms: DEFAULT_IDLE_CACHE_TRIM_MS,
            active_memory_target_mb: DEFAULT_ACTIVE_MEMORY_TARGET_MB,
            show_files: true,
            show_folders: true,
            windows_search_enabled: true,
            windows_search_fallback_filesystem: true,
            uninstall_actions_enabled: true,
        };
        proof {
            assert(texts(c.hotkey_recommended@) =~= recommended_hotkeys());
            assert(texts(c.clipboard_exclude_sensitive_patterns@) =~= default_sensitive_patterns());
            assert(texts(c.plugin_paths@) =~= seq![plugin_dir@]);
        }
        c
    }
}

// ---------------------------------------------------------------------------
// Validation
// ---------------------------------------------------------------------------

/// Some text among `v` is empty.
pub open spec fn any_empty(v: Seq<Seq<char>>) -> bool {
    exists|i: int| 0 <= i < v.len() && (#[trigger] v[i]).len() == 0
}

/// Some text among `v` is blank once trimmed.
pub open spec fn any_blank(v: Seq<Seq<char>>) -> bool {
    exists|i: int| 0 <= i < v.len() && text::trim(#[trigger] v[i]).len() == 0
}

/// What `validate` answers for `c`: the first rule that `c` breaks, in the
/// order the rules are checked.
pub open spec fn config_check(c: Config) -> Result<(), Seq<char>> {
    let template = text::trim(c.web_search_custom_template@);
    if c.max_results < 5 || c.max_results > 100 {
        Err("max_results out of range"@)
    } else if c.index_db_path@.len() == 0 {
        Err("index_db_path is required"@)
    } else if c.config_path@.len() == 0 {
        Err("config_path is required"@)
    } else if text::trim(c.hotkey@).len() == 0 {
        Err("hotkey is required"@)
    } else if c.clipboard_retention_minutes < 5 || c.clipboard_retention_minutes > 43_200 {
        Err("clipboard_retention_minutes out of range"@)
    } else if c.idle_cache_trim_ms < 100 || c.idle_cache_trim_ms > 10_000 {
        Err("idle_cache_trim_ms out of range"@)
    } else if c.active_memory_target_mb < 20 || c.active_memory_target_mb > 512 {
        Err("active_memory_target_mb out of range"@)
    } else if c.web_search_provider == WebSearchProvider::Custom && template.len() == 0 {
        Err("web_search_custom_template is required when web_search_provider=custom"@)
    } else if c.web_search_provider == WebSearchProvider::Custom && !text::contains(template, "{query}"@) {
        Err("web_search_custom_template must include {query} placeholder"@)
    } else if any_empty(texts(c.discovery_roots@)) {
        Err("discovery_roots contains an empty path"@)
    } else if any_empty(texts(c.discovery_exclude_roots@)) {
        Err("discovery_exclude_roots contains an empty path"@)
    } else if any_empty(texts(c.plugin_paths@)) {
        Err("plugin_paths contains an empty path"@)
    } else if any_blank(texts(c.clipboard_exclude_sensitive_patterns@)) {
        Err("clipboard_exclude_sensitive_patterns contains an empty pattern"@)
    } else if hotkey_validation(c.hotkey@) is Err {
        Err("hotkey is invalid: "@ + hotkey_validation(c.hotkey@)->Err_0)
    } else if c.version == 0 {
        Err("version must be >= 1"@)
    } else {
        Ok(())
    }
}

fn has_empty(v: &Vec<String>) -> (r: bool)
    ensures
        r == any_empty(texts(v@)),
{
    let mut i: usize = 0;
    while i < v.len()
        invariant
            i <= v.len(),
            forall|k: int| 0 <= k < i ==> (#[trigger] texts(v@)[k]).len() > 0,
        decreases v.len() - i,
    {
        let c = text::chars_of(v[i].as_str());
        if c.len() == 0 {
            proof {
                assert(texts(v@)[i as int].len() == 0);
            }
            return true;
        }
        proof {
            assert(texts(v@)[i as int] == v@[i as int]@);
        }
        i = i + 1;
    }
    false
}

fn has_blank(v: &Vec<String>) -> (r: bool)
    ensures
        r == any_blank(texts(v@)),
{
    let mut i: usize = 0;
    while i < v.len()
        invariant
            i <= v.len(),
            forall|k: int| 0 <= k < i ==> text::trim(#[trigger] texts(v@)[k]).len() > 0,
        decreases v.len() - i,
    {
        proof {
            assert(texts(v@)[i as int] == v@[i as int]@);
        }
        if text::is_blank(v[i].as_str()) {
            return true;
        }
        i = i + 1;
    }
    false
}

/// Checks every rule a configuration must keep; the error names the first
/// rule broken.
pub fn validate(cfg: &Config) -> (r: Result<(), String>)
    ensures
        match r {
            Ok(()) => config_check(*cfg) == Ok::<(), Seq<char>>(()),
            Err(e) => config_check(*cfg) == Err::<(), Seq<char>>(e@),
        },
{
    if cfg.max_results < 5 || cfg.max_results > 100 {
        return Err(text::owned("max_results out of range"));
    }
    if cfg.index_db_path.as_str().unicode_len() == 0 {
        return Err(text::owned("index_db_path is required"));
    }
    if cfg.config_path.as_str().unicode_len() == 0 {
        return Err(text::owned("config_path is required"));
    }
    if text::is_blank(cfg.hotkey.as_str()) {
        return Err(text::owned("hotkey is required"));
    }
    if cfg.clipboard_retention_minutes < 5 || cfg.clipboard_retention_minutes > 43_200 {
        return Err(text::owned("clipboard_retention_minutes out of range"));
    }
    if cfg.idle_cache_trim_ms < 100 || cfg.idle_cache_trim_ms > 10_000 {
        return Err(text::owned("idle_cache_trim_ms out of range"));
    }
    if cfg.active_memory_target_mb < 20 || cfg.active_memory_target_mb > 512 {
        return Err(text::owned("active_memory_target_mb out of range"));
    }
    if cfg.web_search_provider == WebSearchProvider::Custom {
        let template = text::trimmed_chars(cfg.web_search_custom_template.as_str());
        if template.len() == 0 {
            return Err(
                text::owned("web_search_custom_template is required when web_search_provider=custom"),
            );
        }
        let placeholder = text::chars_of("{query}");
        if !text::vec_contains(&template, &placeholder) {
            return Err(text::owned("web_search_custom_template must include {query} placeholder"));
        }
    }
    if has_empty(&cfg.discovery_roots) {
        return Err(text::owned("discovery_roots contains an empty path"));
    }
    if has_empty(&cfg.discovery_exclude_roots) {
        return Err(text::owned("discovery_exclude_roots contains an empty path"));
    }
    if has_empty(&cfg.plugin_paths) {
        return Err(text::owned("plugin_paths contains an empty path"));
    }
    if has_blank(&cfg.clipboard_exclude_sensitive_patterns) {
        return Err(text::owned("clipboard_exclude_sensitive_patterns contains an empty pattern"));
    }
    match validate_hotkey(cfg.hotkey.as_str()) {
        Ok(_) => {},
        Err(e) => {
            return Err(text::concat("hotkey is invalid: ", e.as_str()));
        },
    }
    if cfg.version == 0 {
        return Err(text::owned("version must be >= 1"));
    }
    Ok(())
}

// ---------------------------------------------------------------------------
// Migrations
// ---------------------------------------------------------------------------

/// The raw config text mentions `key`, quoted or as a bare JSON5 key.
pub open spec fn mentions_key(raw: Seq<char>, key: Seq<char>) -> bool {
    text::contains(raw, seq!['"'] + key + seq!['"']) || text::contains(raw, key + seq![':'])
}

fn raw_has_key(raw: &Vec<char>, key: &str) -> (r: bool)
    ensures
        r == mentions_key(raw@, key@),
{
    let k = text::chars_of(key);
    let mut quoted: Vec<char> = Vec::new();
    quoted.push('"');
    let mut i: usize = 0;
    while i < k.len()
        invariant
            i <= k.len(),
            quoted@ == seq!['"'] + k@.take(i as int),
        decreases k.len() - i,
    {
        quoted.push(k[i]);
        proof {
            assert(k@.take((i + 1) as int) =~= k@.take(i as int).push(k@[i as int]));
        }
        i = i + 1;
    }
    quoted.push('"');
    proof {
        assert(k@.take(k.len() as int) =~= k@);
        assert(quoted@ =~= seq!['"'] + key@ + seq!['"']);
    }
    if text::vec_contains(raw, &quoted) {
        return true;
    }
    let mut bare = k;
    bare.push(':');
    proof {
        assert(bare@ =~= key@ + seq![':']);
    }
    text::vec_contains(raw, &bare)
}

/// The raw text mentions every key that the written template holds.
pub open spec fn mentions_all_template_keys(raw: Seq<char>) -> bool {
    &&& mentions_key(raw, "hotkey"@)
    &&& mentions_key(raw, "launch_at_startup"@)
    &&& mentions_key(raw, "max_results"@)
    &&& mentions_key(raw, "discovery_roots"@)
    &&& mentions_key(raw, "discovery_exclude_roots"@)
    &&& mentions_key(raw, "search_mode_default"@)
    &&& mentions_key(raw, "search_dsl_enabled"@)
    &&& mentions_key(raw, "web_search_provider"@)
    &&& mentions_key(raw, "web_search_custom_template"@)
    &&& mentions_key(raw, "web_search_browser_default_enabled"@)
    &&& mentions_key(raw, "clipboard_enabled"@)
    &&& mentions_key(raw, "clipboard_retention_minutes"@)
    &&& mentions_key(raw, "clipboard_exclude_sensitive_patterns"@)
    &&& mentions_key(raw, "plugins_enabled"@)
    &&& mentions_key(raw, "plugins_safe_mode"@)
    &&& mentions_key(raw, "plugin_paths"@)
    &&& mentions_key(raw, "idle_cache_trim_ms"@)
    &&& mentions_key(raw, "active_memory_target_mb"@)
}

fn has_all_template_keys(raw: &Vec<char>) -> (r: bool)
    ensures
        r == mentions_all_template_keys(raw@),
{
    raw_has_key(raw, "hotkey") && raw_has_key(raw, "launch_at_startup") && raw_has_key(
        raw,
        "max_results",
    ) && raw_has_key(raw, "discovery_roots") && raw_has_key(raw, "discovery_exclude_roots")
        && raw_has_key(raw, "search_mode_default") && raw_has_key(raw, "search_dsl_enabled")
        && raw_has_key(raw, "web_search_provider") && raw_has_key(raw, "web_search_custom_template")
        && raw_has_key(raw, "web_search_browser_default_enabled") && raw_has_key(
        raw,
        "clipboard_enabled",
    ) && raw_has_key(raw, "clipboard_retention_minutes") && raw_has_key(
        raw,
        "clipboard_exclude_sensitive_patterns",
    ) && raw_has_key(raw, "plugins_enabled") && raw_has_key(raw, "plugins_safe_mode")
        && raw_has_key(raw, "plugin_paths") && raw_has_key(raw, "idle_cache_trim_ms")
        && raw_has_key(raw, "active_memory_target_mb")
}

/// The version a configuration was written with (an absent or zero version counts as 1).
pub open spec fn source_version(c: Config) -> u32 {
    if c.version >= 1 { c.version } else { 1 }
}

/// Version 1 files that left out the idle trim, or kept its old default, get the new default.
pub open spec fn resets_idle_trim(c: Config, raw: Seq<char>) -> bool {
    source_version(c) < 2 && (!mentions_key(raw, "idle_cache_trim_ms"@) || c.idle_cache_trim_ms
        == LEGACY_IDLE_CACHE_TRIM_MS_V1)
}

/// The same for the active memory target.
pub open spec fn resets_memory_target(c: Config, raw: Seq<char>) -> bool {
    source_version(c) < 2 && (!mentions_key(raw, "active_memory_target_mb"@)
        || c.active_memory_target_mb == LEGACY_ACTIVE_MEMORY_TARGET_MB_V1)
}

/// Files older than version 3 without a web search setting get its default.
pub open spec fn resets_web_setting(c: Config, raw: Seq<char>, key: Seq<char>) -> bool {
    source_version(c) < 3 && !mentions_key(raw, key)
}

/// Whether the migrated configuration should be written back: something was
/// changed, or the file lacks a key that the template holds.
pub open spec fn migration_persists(c: Config, raw: Seq<char>) -> bool {
    ||| c.version < CURRENT_CONFIG_VERSION
    ||| resets_idle_trim(c, raw)
    ||| resets_memory_target(c, raw)
    ||| resets_web_setting(c, raw, "web_search_provider"@)
    ||| resets_web_setting(c, raw, "web_search_custom_template"@)
    ||| resets_web_setting(c, raw, "web_search_browser_default_enabled"@)
    ||| !mentions_all_template_keys(raw)
}

/// Every setting that migrations do not touch is kept.
pub open spec fn keeps_unmigrated_settings(o: Config, f: Config) -> bool {
    &&& f.max_results == o.max_results
    &&& f.index_db_path == o.index_db_path
    &&& f.config_path == o.config_path
    &&& f.discovery_roots == o.discovery_roots
    &&& f.discovery_exclude_roots == o.discovery_exclude_roots
    &&& f.hotkey == o.hotkey
    &&& f.launch_at_startup == o.launch_at_startup
    &&& f.hotkey_help == o.hotkey_help
    &&& f.hotkey_recommended == o.hotkey_recommended
    &&& f.search_mode_default == o.search_mode_default
    &&& f.search_dsl_enabled == o.search_dsl_enabled
    &&& f.clipboard_enabled == o.clipboard_enabled
    &&& f.clipboard_retention_minutes == o.clipboard_retention_minutes
    &&& f.clipboard_exclude_sensitive_patterns == o.clipboard_exclude_sensitive_patterns
    &&& f.plugins_enabled == o.plugins_enabled
    &&& f.plugin_paths == o.plugin_paths
    &&& f.plugins_safe_mode == o.plugins_safe_mode
    &&& f.show_files == o.show_files
    &&& f.show_folders == o.show_folders
    &&& f.windows_search_enabled == o.windows_search_enabled
    &&& f.windows_search_fallback_filesystem == o.windows_search_fallback_filesystem
    &&& f.uninstall_actions_enabled == o.uninstall_actions_enabled
}

/// Brings a configuration read from `raw` up to the current version: fields
/// that older versions lacked, or kept other defaults for, get today's
/// defaults. Says whether the file should be rewritten.
#[verifier::rlimit(100)]
#[verifier::spinoff_prover]
pub fn apply_migrations(cfg: &mut Config, raw: &str) -> (changed: bool)
    ensures
        changed == migration_persists(*old(cfg), raw@),
        final(cfg).version == (if old(cfg).version < CURRENT_CONFIG_VERSION {
            CURRENT_CONFIG_VERSION
        } else {
            old(cfg).version
        }),
        final(cfg).idle_cache_trim_ms == (if resets_idle_trim(*old(cfg), raw@) {
            DEFAULT_IDLE_CACHE_TRIM_MS
        } else {
            old(cfg).idle_cache_trim_ms
        }),
        final(cfg).active_memory_target_mb == (if resets_memory_target(*old(cfg), raw@) {
            DEFAULT_ACTIVE_MEMORY_TARGET_MB
        } else {
            old(cfg).active_memory_target_mb
        }),
        final(cfg).web_search_provider == (if resets_web_setting(*old(cfg), raw@, "web_search_provider"@) {
            WebSearchProvider::Google
        } else {
            old(cfg).web_search_provider
        }),
        final(cfg).web_search_custom_template@ == (if resets_web_setting(
            *old(cfg),
            raw@,
            "web_search_custom_template"@,
        ) {
            Seq::empty()
        } else {
            old(cfg).web_search_custom_template@
        }),
        final(cfg).web_search_browser_default_enabled == (if resets_web_setting(
            *old(cfg),
            raw@,
            "web_search_browser_default_enabled"@,
        ) {
            true
        } else {
            old(cfg).web_search_browser_default_enabled
        }),
        keeps_unmigrated_settings(*old(cfg), *final(cfg)),
{
    let raw_v = text::chars_of(raw);
    let source = if cfg.version >= 1 { cfg.version } else { 1 };
    let bump = cfg.version < CURRENT_CONFIG_VERSION;
    let mut reset_idle = false;
    let mut reset_memory = false;
    if source < 2 {
        reset_idle = !raw_has_key(&raw_v, "idle_cache_trim_ms") || cfg.idle_cache_trim_ms
            == LEGACY_IDLE_CACHE_TRIM_MS_V1;
        reset_memory = !raw_has_key(&raw_v, "active_memory_target_mb") || cfg.active_memory_target_mb
            == LEGACY_ACTIVE_MEMORY_TARGET_MB_V1;
    }
    let mut reset_provider = false;
    let mut reset_template = false;
    let mut reset_browser = false;
    if source < 3 {
        reset_provider = !raw_has_key(&raw_v, "web_search_provider");
        reset_template = !raw_has_key(&raw_v, "web_search_custom_template");
        reset_browser = !raw_has_key(&raw_v, "web_search_browser_default_enabled");
    }
    let missing_key = !has_all_template_keys(&raw_v);
    set_migrated_fields(cfg, bump, reset_idle, reset_memory, reset_provider, reset_template, reset_browser);
    bump || reset_idle || reset_memory || reset_provider || reset_template || reset_browser || missing_key
}

/// Applies the migration decisions: each flag that is set puts its field to
/// today's default (or the version to the current one); nothing else changes.
fn set_migrated_fields(
    cfg: &mut Config,
    bump: bool,
    reset_idle: bool,
    reset_memory: bool,
    reset_provider: bool,
    reset_template: bool,
    reset_browser: bool,
)
    ensures
        *final(cfg) == (Config {
            version: if bump { CURRENT_CONFIG_VERSION } else { old(cfg).version },
            idle_cache_trim_ms: if reset_idle { DEFAULT_IDLE_CACHE_TRIM_MS } else { old(cfg).idle_cache_trim_ms },
            active_memory_target_mb: if reset_memory {
                DEFAULT_ACTIVE_MEMORY_TARGET_MB
            } else {
                old(cfg).active_memory_target_mb
            },
            web_search_provider: if reset_provider { WebSearchProvider::Google } else { old(cfg).web_search_provider },
            web_search_browser_default_enabled: reset_browser || old(cfg).web_search_browser_default_enabled,
            web_search_custom_template: final(cfg).web_search_custom_template,
            ..*old(cfg)
        }),
        final(cfg).web_search_custom_template@ == (if reset_template {
            Seq::empty()
        } else {
            old(cfg).web_search_custom_template@
        }),
{
    let mut template = String::new();
    if !reset_template {
        std::mem::swap(&mut template, &mut cfg.web_search_custom_template);
    }
    let v = if bump { CURRENT_CONFIG_VERSION } else { cfg.version };
    let idle = if reset_idle { DEFAULT_IDLE_CACHE_TRIM_MS } else { cfg.idle_cache_trim_ms };
    let memory = if reset_memory { DEFAULT_ACTIVE_MEMORY_TARGET_MB } else { cfg.active_memory_target_mb };
    let provider = if reset_provider { WebSearchProvider::Google } else { cfg.web_search_provider };
    let browser = reset_browser || cfg.web_search_browser_default_enabled;
    cfg.version = v;
    cfg.idle_cache_trim_ms = idle;
    cfg.active_memory_target_mb = memory;
    cfg.web_search_provider = provider;
    cfg.web_search_browser_default_enabled = browser;
    cfg.web_search_custom_template = template;
}

/// Migration settles: a configuration at the current version (which is what
/// `apply_migrations` leaves behind) has no setting reset by a second pass,
/// which asks for a rewrite only when the file lacks a template key.
pub proof fn law_migration_settles(c: Config, raw: Seq<char>)
    requires
        c.version >= CURRENT_CONFIG_VERSION,
    ensures
        !resets_idle_trim(c, raw),
        !resets_memory_target(c, raw),
        !resets_web_setting(c, raw, "web_search_provider"@),
        !resets_web_setting(c, raw, "web_search_custom_template"@),
        !resets_web_setting(c, raw, "web_search_browser_default_enabled"@),
        migration_persists(c, raw) == !mentions_all_template_keys(raw),
{
}

} // verus!
