//! The commented configuration file that is written for users to edit.
use vstd::prelude::*;

use crate::config::{texts, Config, SearchMode, WebSearchProvider};
use crate::query_dsl::join;
use crate::settings::{decimal, decimal_u64};
use crate::text;

verus! {

/// The hexadecimal digit of `n` (below 16), in lowercase.
pub open spec fn hex_digit(n: int) -> char {
    if n < 10 { (n + '0' as int) as char } else { (n - 10 + 'a' as int) as char }
}

/// How a JSON string literal writes `c`: quote and backslash escaped; the
/// control characters backspace, tab, line feed, form feed and carriage
/// return by their short escapes, the others as `\u00XX`; anything else as
/// itself.
pub open spec fn json_char(c: char) -> Seq<char> {
    let n = c as int;
    if c == '"' {
        seq!['\\', '"']
    } else if c == '\\' {
        seq!['\\', '\\']
    } else if n == 8 {
        seq!['\\', 'b']
    } else if c == '\t' {
        seq!['\\', 't']
    } else if c == '\n' {
        seq!['\\', 'n']
    } else if n == 12 {
        seq!['\\', 'f']
    } else if c == '\r' {
        seq!['\\', 'r']
    } else if n < 0x20 {
        seq!['\\', 'u', '0', '0', hex_digit(n / 16), hex_digit(n % 16)]
    } else {
        seq![c]
    }
}

/// The characters of `s`, each written as in a JSON string literal.
pub open spec fn json_escaped(s: Seq<char>) -> Seq<char>
    decreases s.len(),
{
    if s.len() == 0 {
        Seq::empty()
    } else {
        json_escaped(s.drop_last()) + json_char(s.last())
    }
}

/// `s` as a JSON string literal, quotes included.
pub open spec fn json_quoted(s: Seq<char>) -> Seq<char> {
    seq!['"'] + json_escaped(s) + seq!['"']
}

/// Calls `serde_json::to_string` on a `str`: the text in quotes, escaped as
/// `json_char` says. Serialising a `str` into memory cannot fail; the error
/// arm is never taken.
#[verifier::external_body]
fn json_string(value: &str) -> (out: String)
    ensures
        out@ == json_quoted(value@),
{
    serde_json::to_string(value).unwrap_or_else(|_| "\"\"".to_string())
}

/// `true` or `false`.
pub open spec fn bool_text(b: bool) -> Seq<char> {
    if b { "true"@ } else { "false"@ }
}

fn bool_str(b: bool) -> (s: &'static str)
    ensures
        s@ == bool_text(b),
{
    if b { "true" } else { "false" }
}

/// The name a search mode has in the configuration file.
pub open spec fn mode_name(m: SearchMode) -> Seq<char> {
    match m {
        SearchMode::All => "all"@,
        SearchMode::Apps => "apps"@,
        SearchMode::Files => "files"@,
        SearchMode::Actions => "actions"@,
        SearchMode::Clipboard => "clipboard"@,
    }
}

/// The mode written to the configuration file reads back as the same mode.
pub proof fn law_mode_name_parses_back(m: SearchMode)
    ensures
        crate::config::parse_mode(mode_name(m)) == Some(m),
{
    reveal_strlit("all");
    reveal_strlit("apps");
    reveal_strlit("files");
    reveal_strlit("actions");
    reveal_strlit("clipboard");
    reveal_strlit("app");
    reveal_strlit("file");
    reveal_strlit("action");
    reveal_strlit("clip");
    let n = mode_name(m);
    assert(text::trim_start(n) == n);
    assert(text::trim_end(n) == n);
    assert(text::ascii_lower(n) =~= n);
    assert(crate::config::parse_mode(n) == crate::config::mode_from_name(n));
    match m {
        SearchMode::All => {},
        SearchMode::Apps => {
            assert(n != "all"@);
        },
        SearchMode::Files => {
            assert(n != "all"@ && n != "apps"@ && n != "app"@);
        },
        SearchMode::Actions => {
            assert(n != "all"@ && n != "apps"@ && n != "app"@ && n != "files"@ && n != "file"@);
        },
        SearchMode::Clipboard => {
            assert(n != "all"@ && n != "apps"@ && n != "app"@ && n != "files"@ && n != "file"@);
            assert(n != "actions"@ && n != "action"@);
        },
    }
}

fn mode_str(m: SearchMode) -> (s: &'static str)
    ensures
        s@ == mode_name(m),
{
    match m {
        SearchMode::All => "all",
        SearchMode::Apps => "apps",
        SearchMode::Files => "files",
        SearchMode::Actions => "actions",
        SearchMode::Clipboard => "clipboard",
    }
}

/// The name a web search provider has in the configuration file.
pub open spec fn provider_name(p: WebSearchProvider) -> Seq<char> {
    match p {
        WebSearchProvider::Duckduckgo => "duckduckgo"@,
        WebSearchProvider::Google => "google"@,
        WebSearchProvider::Bing => "bing"@,
        WebSearchProvider::Brave => "brave"@,
        WebSearchProvider::Startpage => "startpage"@,
        WebSearchProvider::Ecosia => "ecosia"@,
        WebSearchProvider::Yahoo => "yahoo"@,
        WebSearchProvider::Custom => "custom"@,
    }
}

fn provider_str(p: WebSearchProvider) -> (s: &'static str)
    ensures
        s@ == provider_name(p),
{
    match p {
        WebSearchProvider::Duckduckgo => "duckduckgo",
        WebSearchProvider::Google => "google",
        WebSearchProvider::Bing => "bing",
        WebSearchProvider::Brave => "brave",
        WebSearchProvider::Startpage => "startpage",
        WebSearchProvider::Ecosia => "ecosia",
        WebSearchProvider::Yahoo => "yahoo",
        WebSearchProvider::Custom => "custom",
    }
}

/// A commented-out `hotkey` line for each recommended hotkey other than the
/// one in use.
pub open spec fn recommended_lines(options: Seq<Seq<char>>, hotkey: Seq<char>) -> Seq<char>
    decreases options.len(),
{
    if options.len() == 0 {
        Seq::empty()
    } else {
        recommended_lines(options.drop_last(), hotkey) + (if options.last() != hotkey {
            "  // \"hotkey\": "@ + json_quoted(options.last()) + ",\n"@
        } else {
            Seq::empty()
        })
    }
}

/// One line per item of a JSON array, each but the last of `total` ending in a comma.
pub open spec fn list_lines(items: Seq<Seq<char>>, total: nat) -> Seq<char>
    decreases items.len(),
{
    if items.len() == 0 {
        Seq::empty()
    } else {
        list_lines(items.drop_last(), total) + "    "@ + json_quoted(items.last()) + (if items.len()
            != total {
            ","@
        } else {
            Seq::empty()
        }) + "\n"@
    }
}

/// The paths, indented and quoted.
pub open spec fn indented_paths(paths: Seq<Seq<char>>) -> Seq<Seq<char>> {
    paths.map_values(|p: Seq<char>| "    "@ + json_quoted(p))
}

/// A JSON array of paths: `[]` when empty, else one path per line.
pub open spec fn path_array_section(paths: Seq<Seq<char>>) -> Seq<char> {
    let body = join(indented_paths(paths), ",\n"@);
    if body.len() == 0 {
        "[]"@
    } else {
        "[\n"@ + body + "\n  ]"@
    }
}

fn push_json(text_out: &mut String, value: &str)
    ensures
        final(text_out)@ == old(text_out)@ + json_quoted(value@),
{
    let q = json_string(value);
    text::push_str(text_out, q.as_str());
}

fn push_recommended(out: &mut String, options: &Vec<String>, hotkey: &String)
    ensures
        final(out)@ == old(out)@ + recommended_lines(texts(options@), hotkey@),
{
    let mut i: usize = 0;
    while i < options.len()
        invariant
            i <= options.len(),
            out@ == old(out)@ + recommended_lines(texts(options@).take(i as int), hotkey@),
        decreases options.len() - i,
    {
        let ghost before = out@;
        let option = &options[i];
        let same = text::str_eq(option.as_str(), hotkey.as_str());
        if !same {
            text::push_str(out, "  // \"hotkey\": ");
            push_json(out, option.as_str());
            text::push_str(out, ",\n");
        }
        proof {
            let p = texts(options@).take((i + 1) as int);
            assert(p.drop_last() =~= texts(options@).take(i as int));
            assert(p.last() == option@);
            if same {
                assert(out@ =~= before + Seq::<char>::empty());
            }
        }
        i = i + 1;
    }
    proof {
        assert(texts(options@).take(options.len() as int) =~= texts(options@));
    }
}

fn push_list_lines(out: &mut String, items: &Vec<String>)
    ensures
        final(out)@ == old(out)@ + list_lines(texts(items@), items@.len()),
{
    let mut i: usize = 0;
    while i < items.len()
        invariant
            i <= items.len(),
            out@ == old(out)@ + list_lines(texts(items@).take(i as int), items@.len()),
        decreases items.len() - i,
    {
        let ghost before = out@;
        text::push_str(out, "    ");
        push_json(out, items[i].as_str());
        if i + 1 != items.len() {
            text::push_str(out, ",");
        }
        text::push_str(out, "\n");
        proof {
            let p = texts(items@).take((i + 1) as int);
            assert(p.drop_last() =~= texts(items@).take(i as int));
            assert(p.last() == items@[i as int]@);
            if i + 1 == items.len() {
                assert(out@ =~= before + "    "@ + json_quoted(items@[i as int]@) + Seq::<char>::empty()
                    + "\n"@);
            }
        }
        i = i + 1;
    }
    proof {
        assert(texts(items@).take(items.len() as int) =~= texts(items@));
    }
}

fn path_array(paths: &Vec<String>) -> (out: String)
    ensures
        out@ == path_array_section(texts(paths@)),
{
    let mut body = String::new();
    let mut i: usize = 0;
    while i < paths.len()
        invariant
            i <= paths.len(),
            body@ == join(indented_paths(texts(paths@)).take(i as int), ",\n"@),
            i > 0 ==> body@.len() > 0,
        decreases paths.len() - i,
    {
        let ghost before = body@;
        if i > 0 {
            text::push_str(&mut body, ",\n");
        }
        text::push_str(&mut body, "    ");
        push_json(&mut body, paths[i].as_str());
        proof {
            reveal_strlit("    ");
            let p = indented_paths(texts(paths@)).take((i + 1) as int);
            assert(p.drop_last() =~= indented_paths(texts(paths@)).take(i as int));
            assert(p.last() == "    "@ + json_quoted(paths@[i as int]@));
            if i == 0 {
                assert(before.len() == 0);
                assert(body@ =~= p[0]);
            } else {
                assert(body@ =~= before + ",\n"@ + p.last());
            }
        }
        i = i + 1;
    }
    proof {
        assert(indented_paths(texts(paths@)).take(paths.len() as int) =~= indented_paths(texts(paths@)));
    }
    if body.as_str().unicode_len() == 0 {
        text::owned("[]")
    } else {
        let mut out = text::owned("[\n");
        text::push_str(&mut out, body.as_str());
        text::push_str(&mut out, "\n  ]");
        out
    }
}


/// The hotkey part of the template: header comments, the other recommended
/// hotkeys commented out, the hotkey and the startup flag.
pub open spec fn template_hotkey_part(c: Config) -> Seq<char> {
    "{\n  // SwiftFind config (comments are allowed).\n  //\n  // Quick setup:\n  // 1) Keep exactly ONE `hotkey` line uncommented.\n  // 2) Save file.\n  // 3) Restart SwiftFind.\n  //\n  // Safer Windows-friendly hotkeys (uncomment one if you prefer):\n"@ + recommended_lines(texts(c.hotkey_recommended@), c.hotkey@) + "  // Avoid common OS-reserved/conflicting shortcuts like Win+..., Alt+Tab, Ctrl+Esc.\n  \"hotkey\": "@
        + json_quoted(c.hotkey@) + ",\n  // Start SwiftFind automatically when you sign in (true/false)\n  \"launch_at_startup\": "@ + bool_text(c.launch_at_startup)
}

/// Result count and discovery roots.
pub open spec fn template_roots_part(c: Config) -> Seq<char> {
    ",\n\n  // Optional tuning:\n  // Number of results shown per query (valid range: 5..100)\n  \"max_results\": "@ + decimal(c.max_results as nat) + ",\n\n  // Optional: folders scanned for local files.\n  // Add/remove paths as needed.\n  \"discovery_roots\": "@
        + path_array_section(texts(c.discovery_roots@)) + ",\n\n  // Optional: folders to exclude from local-file discovery.\n  // Any file/folder under these roots is ignored.\n  \"discovery_exclude_roots\": "@
        + path_array_section(texts(c.discovery_exclude_roots@))
}

/// Discovery sources and entry types.
pub open spec fn template_sources_part(c: Config) -> Seq<char> {
    ",\n\n  // Local discovery: Windows Search index (falling back to a filesystem walk) and which entries to list\n  \"windows_search_enabled\": "@
        + bool_text(c.windows_search_enabled) + ",\n  \"windows_search_fallback_filesystem\": "@ + bool_text(c.windows_search_fallback_filesystem)
        + ",\n  \"show_files\": "@ + bool_text(c.show_files) + ",\n  \"show_folders\": "@ + bool_text(c.show_folders)
}

/// Search defaults.
pub open spec fn template_mode_part(c: Config) -> Seq<char> {
    ",\n\n  // Search mode default: all | apps | files | actions | clipboard\n  \"search_mode_default\": "@
        + json_quoted(mode_name(c.search_mode_default)) + ",\n  // Enable query operators like kind:, modified:, created:, AND/OR/NOT and -term\n  \"search_dsl_enabled\": "@ + bool_text(c.search_dsl_enabled)
}

/// Result count, discovery settings and search defaults.
pub open spec fn template_search_part(c: Config) -> Seq<char> {
    template_roots_part(c) + template_sources_part(c) + template_mode_part(c)
}

/// Web search settings.
pub open spec fn template_web_part(c: Config) -> Seq<char> {
    ",\n\n  // Web search command actions\n  // Provider: duckduckgo | google | bing | brave | startpage | ecosia | yahoo | custom\n  \"web_search_provider\": "@ + json_quoted(provider_name(c.web_search_provider)) + ",\n  // Used only when provider is custom. Must include {query}.\n  \"web_search_custom_template\": "@
        + json_quoted(c.web_search_custom_template@) + ",\n  // Show a browser-default web search action in command mode\n  \"web_search_browser_default_enabled\": "@
        + bool_text(c.web_search_browser_default_enabled) + ",\n  // Show uninstall actions for installed apps in command mode\n  \"uninstall_actions_enabled\": "@
        + bool_text(c.uninstall_actions_enabled)
}

/// Clipboard settings, up to the list of sensitive patterns.
pub open spec fn template_clipboard_part(c: Config) -> Seq<char> {
    ",\n\n  // Clipboard history provider settings\n  \"clipboard_enabled\": "@ + bool_text(c.clipboard_enabled)
        + ",\n  // Retention in minutes (valid range: 5..43200)\n  \"clipboard_retention_minutes\": "@ + decimal(c.clipboard_retention_minutes as nat) + ",\n  // Substring patterns that should be skipped when capturing clipboard entries\n  \"clipboard_exclude_sensitive_patterns\": [\n"@
        + list_lines(texts(c.clipboard_exclude_sensitive_patterns@), c.clipboard_exclude_sensitive_patterns@.len())
}

/// Web search and clipboard settings.
pub open spec fn template_web_clipboard_part(c: Config) -> Seq<char> {
    template_web_part(c) + template_clipboard_part(c)
}

/// Plugin settings and performance targets, and the closing brace.
pub open spec fn template_plugin_part(c: Config) -> Seq<char> {
    "  ],\n\n  // Plugin SDK settings\n  \"plugins_enabled\": "@ + bool_text(c.plugins_enabled) + ",\n  // Keep safe mode true to prevent plugin command execution.\n  \"plugins_safe_mode\": "@ + bool_text(c.plugins_safe_mode) + ",\n  \"plugin_paths\": [\n"@
        + list_lines(texts(c.plugin_paths@), c.plugin_paths@.len()) + "  ],\n\n  // Runtime performance targets\n  // cache trim after hide in milliseconds (valid range: 100..10000)\n  \"idle_cache_trim_ms\": "@
        + decimal(c.idle_cache_trim_ms as nat) + ",\n  // active memory target in MB (valid range: 20..512)\n  \"active_memory_target_mb\": "@ + decimal(c.active_memory_target_mb as nat)
        + "\n}\n"@
}

/// The whole commented configuration file for `c`.
pub open spec fn user_template(c: Config) -> Seq<char> {
    template_hotkey_part(c) + template_search_part(c) + template_web_clipboard_part(c)
        + template_plugin_part(c)
}

fn push_decimal(out: &mut String, n: u64)
    ensures
        final(out)@ == old(out)@ + decimal(n as nat),
{
    let d = decimal_u64(n);
    let s = text::string_of(&d);
    text::push_str(out, s.as_str());
}

fn push_hotkey_part(out: &mut String, c: &Config)
    ensures
        final(out)@ == old(out)@ + template_hotkey_part(*c),
{
    let ghost start = out@;
    text::push_str(out, "{\n  // SwiftFind config (comments are allowed).\n  //\n  // Quick setup:\n  // 1) Keep exactly ONE `hotkey` line uncommented.\n  // 2) Save file.\n  // 3) Restart SwiftFind.\n  //\n  // Safer Windows-friendly hotkeys (uncomment one if you prefer):\n");
    push_recommended(out, &c.hotkey_recommended, &c.hotkey);
    text::push_str(out, "  // Avoid common OS-reserved/conflicting shortcuts like Win+..., Alt+Tab, Ctrl+Esc.\n  \"hotkey\": ");
    push_json(out, c.hotkey.as_str());
    text::push_str(out, ",\n  // Start SwiftFind automatically when you sign in (true/false)\n  \"launch_at_startup\": ");
    text::push_str(out, bool_str(c.launch_at_startup));
    proof {
        assert(out@ =~= start + template_hotkey_part(*c));
    }
}

fn push_roots_part(out: &mut String, c: &Config)
    ensures
        final(out)@ == old(out)@ + template_roots_part(*c),
{
    let ghost start = out@;
    text::push_str(out, ",\n\n  // Optional tuning:\n  // Number of results shown per query (valid range: 5..100)\n  \"max_results\": ");
    push_decimal(out, c.max_results as u64);
    text::push_str(out, ",\n\n  // Optional: folders scanned for local files.\n  // Add/remove paths as needed.\n  \"discovery_roots\": ");
    let roots = path_array(&c.discovery_roots);
    text::push_str(out, roots.as_str());
    text::push_str(out, ",\n\n  // Optional: folders to exclude from local-file discovery.\n  // Any file/folder under these roots is ignored.\n  \"discovery_exclude_roots\": ");
    let excluded = path_array(&c.discovery_exclude_roots);
    text::push_str(out, excluded.as_str());
    proof {
        assert(out@ =~= start + template_roots_part(*c));
    }
}

fn push_sources_part(out: &mut String, c: &Config)
    ensures
        final(out)@ == old(out)@ + template_sources_part(*c),
{
    let ghost start = out@;
    let l1 = ",\n\n  // Local discovery: Windows Search index (falling back to a filesystem walk) and which entries to list\n  \"windows_search_enabled\": ";
    let l2 = ",\n  \"windows_search_fallback_filesystem\": ";
    let l3 = ",\n  \"show_files\": ";
    let l4 = ",\n  \"show_folders\": ";
    let b1 = bool_str(c.windows_search_enabled);
    let b2 = bool_str(c.windows_search_fallback_filesystem);
    let b3 = bool_str(c.show_files);
    let b4 = bool_str(c.show_folders);
    let ghost p1 = l1@ + b1@;
    let ghost p2 = p1 + l2@ + b2@;
    let ghost p3 = p2 + l3@ + b3@;
    let ghost p4 = p3 + l4@ + b4@;
    text::push_str(out, l1);
    text::push_str(out, b1);
    proof {
        vstd::seq_lib::lemma_concat_associative(start, l1@, b1@);
    }
    text::push_str(out, l2);
    text::push_str(out, b2);
    proof {
        vstd::seq_lib::lemma_concat_associative(start, p1, l2@);
        vstd::seq_lib::lemma_concat_associative(start, p1 + l2@, b2@);
    }
    text::push_str(out, l3);
    text::push_str(out, b3);
    proof {
        vstd::seq_lib::lemma_concat_associative(start, p2, l3@);
        vstd::seq_lib::lemma_concat_associative(start, p2 + l3@, b3@);
    }
    text::push_str(out, l4);
    text::push_str(out, b4);
    proof {
        vstd::seq_lib::lemma_concat_associative(start, p3, l4@);
        vstd::seq_lib::lemma_concat_associative(start, p3 + l4@, b4@);
        assert(p4 == template_sources_part(*c));
    }
}

fn push_mode_part(out: &mut String, c: &Config)
    ensures
        final(out)@ == old(out)@ + template_mode_part(*c),
{
    let ghost start = out@;
    text::push_str(out, ",\n\n  // Search mode default: all | apps | files | actions | clipboard\n  \"search_mode_default\": ");
    push_json(out, mode_str(c.search_mode_default));
    text::push_str(out, ",\n  // Enable query operators like kind:, modified:, created:, AND/OR/NOT and -term\n  \"search_dsl_enabled\": ");
    text::push_str(out, bool_str(c.search_dsl_enabled));
    proof {
        assert(out@ =~= start + template_mode_part(*c));
    }
}

fn push_search_part(out: &mut String, c: &Config)
    ensures
        final(out)@ == old(out)@ + template_search_part(*c),
{
    let ghost start = out@;
    push_roots_part(out, c);
    push_sources_part(out, c);
    push_mode_part(out, c);
    proof {
        assert(out@ =~= start + template_search_part(*c));
    }
}

fn push_web_part(out: &mut String, c: &Config)
    ensures
        final(out)@ == old(out)@ + template_web_part(*c),
{
    let ghost start = out@;
    text::push_str(out, ",\n\n  // Web search command actions\n  // Provider: duckduckgo | google | bing | brave | startpage | ecosia | yahoo | custom\n  \"web_search_provider\": ");
    push_json(out, provider_str(c.web_search_provider));
    text::push_str(out, ",\n  // Used only when provider is custom. Must include {query}.\n  \"web_search_custom_template\": ");
    push_json(out, c.web_search_custom_template.as_str());
    text::push_str(out, ",\n  // Show a browser-default web search action in command mode\n  \"web_search_browser_default_enabled\": ");
    text::push_str(out, bool_str(c.web_search_browser_default_enabled));
    text::push_str(out, ",\n  // Show uninstall actions for installed apps in command mode\n  \"uninstall_actions_enabled\": ");
    text::push_str(out, bool_str(c.uninstall_actions_enabled));
    proof {
        assert(out@ =~= start + template_web_part(*c));
    }
}

fn push_clipboard_part(out: &mut String, c: &Config)
    ensures
        final(out)@ == old(out)@ + template_clipboard_part(*c),
{
    let ghost start = out@;
    text::push_str(out, ",\n\n  // Clipboard history provider settings\n  \"clipboard_enabled\": ");
    text::push_str(out, bool_str(c.clipboard_enabled));
    text::push_str(out, ",\n  // Retention in minutes (valid range: 5..43200)\n  \"clipboard_retention_minutes\": ");
    push_decimal(out, c.clipboard_retention_minutes as u64);
    text::push_str(out, ",\n  // Substring patterns that should be skipped when capturing clipboard entries\n  \"clipboard_exclude_sensitive_patterns\": [\n");
    push_list_lines(out, &c.clipboard_exclude_sensitive_patterns);
    proof {
        assert(out@ =~= start + template_clipboard_part(*c));
    }
}

fn push_web_clipboard_part(out: &mut String, c: &Config)
    ensures
        final(out)@ == old(out)@ + template_web_clipboard_part(*c),
{
    let ghost start = out@;
    push_web_part(out, c);
    push_clipboard_part(out, c);
    proof {
        assert(out@ =~= start + template_web_clipboard_part(*c));
    }
}

fn push_plugin_part(out: &mut String, c: &Config)
    ensures
        final(out)@ == old(out)@ + template_plugin_part(*c),
{
    let ghost start = out@;
    text::push_str(out, "  ],\n\n  // Plugin SDK settings\n  \"plugins_enabled\": ");
    text::push_str(out, bool_str(c.plugins_enabled));
    text::push_str(out, ",\n  // Keep safe mode true to prevent plugin command execution.\n  \"plugins_safe_mode\": ");
    text::push_str(out, bool_str(c.plugins_safe_mode));
    text::push_str(out, ",\n  \"plugin_paths\": [\n");
    push_list_lines(out, &c.plugin_paths);
    text::push_str(out, "  ],\n\n  // Runtime performance targets\n  // cache trim after hide in milliseconds (valid range: 100..10000)\n  \"idle_cache_trim_ms\": ");
    push_decimal(out, c.idle_cache_trim_ms as u64);
    text::push_str(out, ",\n  // active memory target in MB (valid range: 20..512)\n  \"active_memory_target_mb\": ");
    push_decimal(out, c.active_memory_target_mb as u64);
    text::push_str(out, "\n}\n");
    proof {
        assert(out@ =~= start + template_plugin_part(*c));
    }
}

/// The commented configuration file for `c` (what `write_user_template` writes).
pub fn render_user_template(c: &Config) -> (out: String)
    ensures
        out@ == user_template(*c),
{
    let mut out = String::new();
    push_hotkey_part(&mut out, c);
    push_search_part(&mut out, c);
    push_web_clipboard_part(&mut out, c);
    push_plugin_part(&mut out, c);
    proof {
        assert(out@ =~= user_template(*c));
    }
    out
}

} // verus!
