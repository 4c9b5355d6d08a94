//! Plugins: what a plugin manifest contributes to search, and how its
//! actions are described.
use vstd::prelude::*;

use crate::config::Config;
use crate::model::SearchItem;
use crate::query_dsl::{join, strings};
use crate::text;

verus! {

/// What running a plugin action does.
#[derive(Debug, Clone, PartialEq, Eq)]
pub enum PluginActionKind {
    OpenPath { path: String },
    Command { command: String, args: Vec<String> },
}

/// An action that a plugin contributes.
#[derive(Debug, Clone, PartialEq, Eq)]
pub struct PluginAction {
    pub result_id: String,
    pub plugin_id: String,
    pub action_id: String,
    pub title: String,
    pub subtitle: String,
    pub keywords: Vec<String>,
    pub kind: PluginActionKind,
}

/// What the loaded plugins contribute: searchable items, action items, the
/// actions behind them (one per result id) and the manifests that failed.
#[derive(Debug)]
pub struct PluginRegistry {
    pub provider_items: Vec<SearchItem>,
    pub action_items: Vec<SearchItem>,
    pub actions: Vec<PluginAction>,
    pub load_warnings: Vec<String>,
}

impl Default for PluginRegistry {
    fn default() -> (r: Self)
        ensures
            r.provider_items@.len() == 0,
            r.action_items@.len() == 0,
            r.actions@.len() == 0,
            r.load_warnings@.len() == 0,
    {
        PluginRegistry {
            provider_items: Vec::new(),
            action_items: Vec::new(),
            actions: Vec::new(),
            load_warnings: Vec::new(),
        }
    }
}

/// A searchable item declared by a manifest.
#[derive(Debug, Clone, Default)]
pub struct ManifestProviderItem {
    pub id: String,
    pub kind: String,
    pub title: String,
    pub path: String,
}

/// An action declared by a manifest.
#[derive(Debug, Clone)]
pub struct ManifestAction {
    pub id: String,
    pub title: String,
    pub subtitle: String,
    pub keywords: Vec<String>,
    pub action_type: String,
    pub path: String,
    pub command: String,
    pub args: Vec<String>,
}

impl Default for ManifestAction {
    fn default() -> (a: Self)
        ensures
            a.id@.len() == 0,
            a.title@.len() == 0,
            a.subtitle@.len() == 0,
            a.keywords@.len() == 0,
            a.action_type@ == "open_path"@,
            a.path@.len() == 0,
            a.command@.len() == 0,
            a.args@.len() == 0,
    {
        ManifestAction {
            id: String::new(),
            title: String::new(),
            subtitle: String::new(),
            keywords: Vec::new(),
            action_type: text::owned("open_path"),
            path: String::new(),
            command: String::new(),
            args: Vec::new(),
        }
    }
}

/// A plugin manifest.
#[derive(Debug, Clone)]
pub struct PluginManifest {
    pub id: String,
    pub name: String,
    pub version: String,
    pub enabled: bool,
    pub provider_items: Vec<ManifestProviderItem>,
    pub actions: Vec<ManifestAction>,
}

impl Default for PluginManifest {
    fn default() -> (m: Self)
        ensures
            m.id@.len() == 0,
            m.name@.len() == 0,
            m.version@.len() == 0,
            m.enabled,
            m.provider_items@.len() == 0,
            m.actions@.len() == 0,
    {
        PluginManifest {
            id: String::new(),
            name: String::new(),
            version: String::new(),
            enabled: true,
            provider_items: Vec::new(),
            actions: Vec::new(),
        }
    }
}

/// A manifest read from disk is accepted only with a non-blank id.
pub fn check_manifest(manifest: &PluginManifest) -> (r: Result<(), String>)
    ensures
        r is Ok <==> text::trim(manifest.id@).len() > 0,
        r matches Err(e) ==> e@ == "missing plugin id"@,
{
    if text::is_blank(manifest.id.as_str()) {
        Err(text::owned("missing plugin id"))
    } else {
        Ok(())
    }
}

fn copy_strings(v: &Vec<String>) -> (out: Vec<String>)
    ensures
        strings(out@) == strings(v@),
{
    let mut out: Vec<String> = Vec::new();
    let mut i: usize = 0;
    while i < v.len()
        invariant
            i <= v@.len(),
            strings(out@) == strings(v@).take(i as int),
        decreases v@.len() - i,
    {
        let s = text::owned(v[i].as_str());
        let ghost before = out@;
        out.push(s);
        proof {
            assert(strings(out@) =~= strings(before).push(s@));
            assert(strings(v@).take((i + 1) as int) =~= strings(v@).take(i as int).push(v@[i as int]@));
        }
        i = i + 1;
    }
    proof {
        assert(strings(v@).take(v@.len() as int) =~= strings(v@));
    }
    out
}

/// An action of type `command` runs its trimmed command with its arguments;
/// any other type opens its trimmed path.
pub open spec fn is_action_kind_of(kind: PluginActionKind, a: ManifestAction) -> bool {
    if text::ascii_lower(text::trim(a.action_type@)) == "command"@ {
        kind matches PluginActionKind::Command { command, args } && command@ == text::trim(a.command@)
            && strings(args@) == strings(a.args@)
    } else {
        kind matches PluginActionKind::OpenPath { path } && path@ == text::trim(a.path@)
    }
}

pub fn parse_action_kind(action: &ManifestAction) -> (kind: PluginActionKind)
    ensures
        is_action_kind_of(kind, *action),
{
    let t = text::trimmed_chars(action.action_type.as_str());
    let n = text::lower_vec(&t);
    if text::vec_eq_str(&n, "command") {
        return PluginActionKind::Command {
            command: text::trim_str(action.command.as_str()),
            args: copy_strings(&action.args),
        };
    }
    PluginActionKind::OpenPath { path: text::trim_str(action.path.as_str()) }
}

/// The item a manifest's provider entry contributes, or `None` when its id or
/// title is blank: id `plugin:<plugin>:item:<id>`, kind `file` by default.
pub open spec fn provider_item_fields(plugin_id: Seq<char>, item: ManifestProviderItem) -> Option<(Seq<char>, Seq<char>, Seq<char>, Seq<char>)> {
    let id = text::trim(item.id@);
    let title = text::trim(item.title@);
    let kind = text::trim(item.kind@);
    if id.len() == 0 || title.len() == 0 {
        None
    } else {
        Some(
            (
                "plugin:"@ + plugin_id + ":item:"@ + id,
                if kind.len() == 0 { "file"@ } else { kind },
                title,
                text::trim(item.path@),
            ),
        )
    }
}

/// The fields of the items contributed by `items`, in order.
pub open spec fn provider_items_fields(plugin_id: Seq<char>, items: Seq<ManifestProviderItem>) -> Seq<(Seq<char>, Seq<char>, Seq<char>, Seq<char>)>
    decreases items.len(),
{
    if items.len() == 0 {
        Seq::empty()
    } else {
        provider_items_fields(plugin_id, items.drop_last()) + match provider_item_fields(plugin_id, items.last()) {
            Some(f) => seq![f],
            None => Seq::empty(),
        }
    }
}

/// `item` is what `SearchItem::new` builds from the id, kind, title and path
/// `f`: no uses and no last access yet.
pub open spec fn item_has_fields(item: SearchItem, f: (Seq<char>, Seq<char>, Seq<char>, Seq<char>)) -> bool {
    item.built_from(f.0, f.1, f.2, f.3)
}

/// The subtitle of a plugin action: its own, or "<label> plugin action".
pub open spec fn action_subtitle(label: Seq<char>, a: ManifestAction) -> Seq<char> {
    let s = text::trim(a.subtitle@);
    if s.len() == 0 { label + " plugin action"@ } else { s }
}

/// What an action item shows under its title: the subtitle, then the
/// keywords after a space.
pub open spec fn action_item_path(label: Seq<char>, a: ManifestAction) -> Seq<char> {
    action_subtitle(label, a) + (if a.keywords@.len() == 0 {
        Seq::empty()
    } else {
        " "@ + join(strings(a.keywords@), " "@)
    })
}

/// The item and action fields a manifest action contributes, or `None` when
/// its id or title is blank.
pub open spec fn action_item_fields(plugin_id: Seq<char>, label: Seq<char>, a: ManifestAction) -> Option<(Seq<char>, Seq<char>, Seq<char>, Seq<char>)> {
    let id = text::trim(a.id@);
    let title = text::trim(a.title@);
    if id.len() == 0 || title.len() == 0 {
        None
    } else {
        Some(("plugin:"@ + plugin_id + ":action:"@ + id, "action"@, title, action_item_path(label, a)))
    }
}

pub open spec fn action_items_fields(plugin_id: Seq<char>, label: Seq<char>, actions: Seq<ManifestAction>) -> Seq<(Seq<char>, Seq<char>, Seq<char>, Seq<char>)>
    decreases actions.len(),
{
    if actions.len() == 0 {
        Seq::empty()
    } else {
        action_items_fields(plugin_id, label, actions.drop_last()) + match action_item_fields(
            plugin_id,
            label,
            actions.last(),
        ) {
            Some(f) => seq![f],
            None => Seq::empty(),
        }
    }
}

/// The label a plugin goes by: its name, else its id.
pub open spec fn plugin_label(m: PluginManifest) -> Seq<char> {
    let n = text::trim(m.name@);
    if n.len() == 0 { text::trim(m.id@) } else { n }
}

fn push_fields_item(out: &mut Vec<SearchItem>, id: &str, kind: &str, title: &str, path: &str)
    ensures
        final(out)@.len() == old(out)@.len() + 1,
        final(out)@.take(old(out)@.len() as int) == old(out)@,
        item_has_fields(final(out)@.last(), (id@, kind@, title@, path@)),
{
    let ghost before = out@;
    out.push(SearchItem::new(id, kind, title, path));
    proof {
        assert(out@.take(before.len() as int) =~= before);
    }
}

fn plugin_result_id(plugin_id: &str, middle: &str, id: &str) -> (out: String)
    ensures
        out@ == "plugin:"@ + plugin_id@ + middle@ + id@,
{
    let mut out = text::concat("plugin:", plugin_id);
    text::push_str(&mut out, middle);
    text::push_str(&mut out, id);
    out
}

fn join_strings(parts: &Vec<String>) -> (out: String)
    ensures
        out@ == join(strings(parts@), " "@),
{
    let mut chars: Vec<Vec<char>> = Vec::new();
    let mut i: usize = 0;
    while i < parts.len()
        invariant
            i <= parts@.len(),
            crate::search::views(chars@) == strings(parts@).take(i as int),
        decreases parts@.len() - i,
    {
        let c = text::chars_of(parts[i].as_str());
        let ghost before = chars@;
        chars.push(c);
        proof {
            assert(crate::search::views(chars@) =~= crate::search::views(before).push(c@));
            assert(strings(parts@).take((i + 1) as int) =~= strings(parts@).take(i as int).push(parts@[i as int]@));
        }
        i = i + 1;
    }
    proof {
        assert(strings(parts@).take(parts@.len() as int) =~= strings(parts@));
        assert(seq![' '] =~= " "@) by {
            reveal_strlit(" ");
        }
    }
    let j = crate::query_dsl::join_chars(&chars, ' ');
    text::string_of(&j)
}

/// Adds what an enabled manifest contributes: its valid provider items, and
/// its valid actions, each as a search item and as an action (a later action
/// with the same result id replaces an earlier one).
pub fn append_manifest(registry: &mut PluginRegistry, manifest: PluginManifest)
    ensures
        !manifest.enabled ==> final(registry).provider_items@ == old(registry).provider_items@
            && final(registry).action_items@ == old(registry).action_items@,
        manifest.enabled ==> {
            let pid = text::trim(manifest.id@);
            let label = plugin_label(manifest);
            let added = provider_items_fields(pid, manifest.provider_items@);
            let added_actions = action_items_fields(pid, label, manifest.actions@);
            let old_p = old(registry).provider_items@;
            let old_a = old(registry).action_items@;
            &&& final(registry).provider_items@.len() == old_p.len() + added.len()
            &&& final(registry).provider_items@.take(old_p.len() as int) == old_p
            &&& forall|k: int| 0 <= k < added.len() ==> #[trigger] item_has_fields(
                final(registry).provider_items@[old_p.len() + k],
                added[k],
            )
            &&& final(registry).action_items@.len() == old_a.len() + added_actions.len()
            &&& final(registry).action_items@.take(old_a.len() as int) == old_a
            &&& forall|k: int| 0 <= k < added_actions.len() ==> #[trigger] item_has_fields(
                final(registry).action_items@[old_a.len() + k],
                added_actions[k],
            )
        },
        final(registry).load_warnings@ == old(registry).load_warnings@,
        !manifest.enabled ==> final(registry).actions@ == old(registry).actions@,
        manifest.enabled ==> forall|k: int|
            0 <= k < action_items_fields(text::trim(manifest.id@), plugin_label(manifest), manifest.actions@).len()
                ==> holds_result_id(
                final(registry).actions@,
                #[trigger] action_items_fields(text::trim(manifest.id@), plugin_label(manifest), manifest.actions@)[k].0,
            ),
        forall|rid: Seq<char>| holds_result_id(old(registry).actions@, rid) ==> #[trigger] holds_result_id(final(registry).actions@, rid),
        unique_result_ids(old(registry).actions@) ==> unique_result_ids(final(registry).actions@),
{
    if !manifest.enabled {
        return;
    }
    let plugin_id = text::trim_str(manifest.id.as_str());
    let name = text::trim_str(manifest.name.as_str());
    let label = if name.as_str().unicode_len() == 0 { text::owned(plugin_id.as_str()) } else { name };
    let ghost old_p = registry.provider_items@;
    let mut i: usize = 0;
    while i < manifest.provider_items.len()
        invariant
            i <= manifest.provider_items@.len(),
            plugin_id@ == text::trim(manifest.id@),
            registry.load_warnings@ == old(registry).load_warnings@,
            registry.action_items@ == old(registry).action_items@,
            registry.actions@ == old(registry).actions@,
            old_p == old(registry).provider_items@,
            ({
                let added = provider_items_fields(plugin_id@, manifest.provider_items@.take(i as int));
                &&& registry.provider_items@.len() == old_p.len() + added.len()
                &&& registry.provider_items@.take(old_p.len() as int) == old_p
                &&& forall|k: int| 0 <= k < added.len() ==> #[trigger] item_has_fields(
                    registry.provider_items@[old_p.len() + k],
                    added[k],
                )
            }),
        decreases manifest.provider_items@.len() - i,
    {
        let item = &manifest.provider_items[i];
        let ghost prev_added = provider_items_fields(plugin_id@, manifest.provider_items@.take(i as int));
        proof {
            let t = manifest.provider_items@.take((i + 1) as int);
            assert(t.drop_last() =~= manifest.provider_items@.take(i as int));
            assert(t.last() == manifest.provider_items@[i as int]);
        }
        let item_id = text::trim_str(item.id.as_str());
        let title = text::trim_str(item.title.as_str());
        if item_id.as_str().unicode_len() != 0 && title.as_str().unicode_len() != 0 {
            let result_id = plugin_result_id(plugin_id.as_str(), ":item:", item_id.as_str());
            let kt = text::trim_str(item.kind.as_str());
            let kind = if kt.as_str().unicode_len() == 0 { text::owned("file") } else { kt };
            let path = text::trim_str(item.path.as_str());
            let ghost before = registry.provider_items@;
            push_fields_item(&mut registry.provider_items, result_id.as_str(), kind.as_str(), title.as_str(), path.as_str());
            proof {
                let added = provider_items_fields(plugin_id@, manifest.provider_items@.take((i + 1) as int));
                assert(added =~= prev_added.push((result_id@, kind@, title@, path@)));
                assert(registry.provider_items@.take(old_p.len() as int) =~= old_p) by {
                    assert(registry.provider_items@.take(before.len() as int) == before);
                    assert forall|k: int| 0 <= k < old_p.len() implies registry.provider_items@[k] == old_p[k] by {
                        assert(registry.provider_items@.take(before.len() as int)[k] == registry.provider_items@[k]);
                        assert(before.take(old_p.len() as int)[k] == before[k]);
                    }
                }
                assert forall|k: int| 0 <= k < added.len() implies #[trigger] item_has_fields(
                    registry.provider_items@[old_p.len() + k],
                    added[k],
                ) by {
                    if k < prev_added.len() {
                        assert(registry.provider_items@.take(before.len() as int)[old_p.len() + k] == registry.provider_items@[old_p.len() + k]);
                        assert(before[old_p.len() + k] == registry.provider_items@[old_p.len() + k]);
                    }
                }
            }
        } else {
            proof {
                assert(provider_items_fields(plugin_id@, manifest.provider_items@.take((i + 1) as int)) =~= prev_added);
            }
        }
        i = i + 1;
    }
    proof {
        assert(manifest.provider_items@.take(manifest.provider_items@.len() as int) =~= manifest.provider_items@);
    }
    let ghost old_a = registry.action_items@;
    let mut j: usize = 0;
    while j < manifest.actions.len()
        invariant
            j <= manifest.actions@.len(),
            plugin_id@ == text::trim(manifest.id@),
            label@ == plugin_label(manifest),
            registry.load_warnings@ == old(registry).load_warnings@,
            old_a == old(registry).action_items@,
            forall|k: int|
                0 <= k < action_items_fields(plugin_id@, label@, manifest.actions@.take(j as int)).len() ==> holds_result_id(
                    registry.actions@,
                    #[trigger] action_items_fields(plugin_id@, label@, manifest.actions@.take(j as int))[k].0,
                ),
            forall|rid: Seq<char>| holds_result_id(old(registry).actions@, rid) ==> #[trigger] holds_result_id(registry.actions@, rid),
            unique_result_ids(old(registry).actions@) ==> unique_result_ids(registry.actions@),
            ({
                let added = provider_items_fields(plugin_id@, manifest.provider_items@);
                &&& registry.provider_items@.len() == old(registry).provider_items@.len() + added.len()
                &&& registry.provider_items@.take(old(registry).provider_items@.len() as int) == old(registry).provider_items@
                &&& forall|k: int| 0 <= k < added.len() ==> #[trigger] item_has_fields(
                    registry.provider_items@[old(registry).provider_items@.len() + k],
                    added[k],
                )
            }),
            ({
                let added = action_items_fields(plugin_id@, label@, manifest.actions@.take(j as int));
                &&& registry.action_items@.len() == old_a.len() + added.len()
                &&& registry.action_items@.take(old_a.len() as int) == old_a
                &&& forall|k: int| 0 <= k < added.len() ==> #[trigger] item_has_fields(
                    registry.action_items@[old_a.len() + k],
                    added[k],
                )
            }),
        decreases manifest.actions@.len() - j,
    {
        let action = &manifest.actions[j];
        let ghost prev_added = action_items_fields(plugin_id@, label@, manifest.actions@.take(j as int));
        proof {
            let t = manifest.actions@.take((j + 1) as int);
            assert(t.drop_last() =~= manifest.actions@.take(j as int));
            assert(t.last() == manifest.actions@[j as int]);
        }
        let action_id = text::trim_str(action.id.as_str());
        let action_title = text::trim_str(action.title.as_str());
        if action_id.as_str().unicode_len() != 0 && action_title.as_str().unicode_len() != 0 {
            let result_id = plugin_result_id(plugin_id.as_str(), ":action:", action_id.as_str());
            let st = text::trim_str(action.subtitle.as_str());
            let subtitle = if st.as_str().unicode_len() == 0 {
                text::concat(label.as_str(), " plugin action")
            } else {
                st
            };
            let kind = parse_action_kind(action);
            let mut item_path = text::owned(subtitle.as_str());
            if action.keywords.len() != 0 {
                text::push_str(&mut item_path, " ");
                let joined = join_strings(&action.keywords);
                text::push_str(&mut item_path, joined.as_str());
            }
            let plugin_action = PluginAction {
                result_id: text::owned(result_id.as_str()),
                plugin_id: text::owned(plugin_id.as_str()),
                action_id: text::owned(action_id.as_str()),
                title: text::owned(action_title.as_str()),
                subtitle: text::owned(subtitle.as_str()),
                keywords: copy_strings(&action.keywords),
                kind,
            };
            let ghost before = registry.action_items@;
            let ghost actions_before = registry.actions@;
            push_fields_item(&mut registry.action_items, result_id.as_str(), "action", action_title.as_str(), item_path.as_str());
            upsert_action(&mut registry.actions, plugin_action);
            proof {
                lemma_upserted_action(actions_before, plugin_action);
                assert(item_path@ == action_item_path(label@, *action));
                assert forall|rid: Seq<char>| holds_result_id(old(registry).actions@, rid) implies #[trigger] holds_result_id(
                    registry.actions@,
                    rid,
                ) by {
                    assert(holds_result_id(actions_before, rid));
                }
                let added_now = action_items_fields(plugin_id@, label@, manifest.actions@.take((j + 1) as int));
                assert(added_now =~= prev_added.push((result_id@, "action"@, action_title@, item_path@)));
                assert forall|k: int| 0 <= k < added_now.len() implies holds_result_id(
                    registry.actions@,
                    #[trigger] added_now[k].0,
                ) by {
                    if k < prev_added.len() {
                        assert(added_now[k] == prev_added[k]);
                        assert(holds_result_id(actions_before, prev_added[k].0));
                    }
                }
                let added = action_items_fields(plugin_id@, label@, manifest.actions@.take((j + 1) as int));
                assert(item_path@ == action_item_path(label@, *action));
                assert(added =~= prev_added.push((result_id@, "action"@, action_title@, item_path@)));
                assert(registry.action_items@.take(old_a.len() as int) =~= old_a) by {
                    assert forall|k: int| 0 <= k < old_a.len() implies registry.action_items@[k] == old_a[k] by {
                        assert(registry.action_items@.take(before.len() as int)[k] == registry.action_items@[k]);
                        assert(before.take(old_a.len() as int)[k] == before[k]);
                    }
                }
                assert forall|k: int| 0 <= k < added.len() implies #[trigger] item_has_fields(
                    registry.action_items@[old_a.len() + k],
                    added[k],
                ) by {
                    if k < prev_added.len() {
                        assert(registry.action_items@.take(before.len() as int)[old_a.len() + k] == registry.action_items@[old_a.len() + k]);
                        assert(before[old_a.len() + k] == registry.action_items@[old_a.len() + k]);
                    }
                }
            }
        } else {
            proof {
                assert(action_items_fields(plugin_id@, label@, manifest.actions@.take((j + 1) as int)) =~= prev_added);
            }
        }
        j = j + 1;
    }
    proof {
        assert(manifest.actions@.take(manifest.actions@.len() as int) =~= manifest.actions@);
    }
}

/// Some action answers to `result_id`.
pub open spec fn holds_result_id(actions: Seq<PluginAction>, result_id: Seq<char>) -> bool {
    exists|i: int| 0 <= i < actions.len() && (#[trigger] actions[i]).result_id@ == result_id
}

/// No result id answers to two actions.
pub open spec fn unique_result_ids(actions: Seq<PluginAction>) -> bool {
    forall|i: int, j: int|
        0 <= i < j < actions.len() ==> (#[trigger] actions[i]).result_id@ != (#[trigger] actions[j]).result_id@
}

/// `actions` with the first action answering to `a`'s result id replaced by
/// `a`, or with `a` appended when none does.
pub open spec fn upserted_action(actions: Seq<PluginAction>, a: PluginAction) -> Seq<PluginAction> {
    if holds_result_id(actions, a.result_id@) {
        let i = choose|i: int|
            0 <= i < actions.len() && (#[trigger] actions[i]).result_id@ == a.result_id@ && forall|k: int|
                0 <= k < i ==> actions[k].result_id@ != a.result_id@;
        actions.update(i, a)
    } else {
        actions.push(a)
    }
}

proof fn lemma_first_holder(actions: Seq<PluginAction>, rid: Seq<char>)
    requires
        holds_result_id(actions, rid),
    ensures
        exists|i: int|
            0 <= i < actions.len() && (#[trigger] actions[i]).result_id@ == rid && forall|k: int|
                0 <= k < i ==> actions[k].result_id@ != rid,
    decreases actions.len(),
{
    let d = actions.drop_last();
    if holds_result_id(d, rid) {
        let w = choose|w: int| 0 <= w < d.len() && (#[trigger] d[w]).result_id@ == rid;
        assert(actions[w] == d[w]);
        lemma_first_holder(d, rid);
        let i = choose|i: int|
            0 <= i < d.len() && (#[trigger] d[i]).result_id@ == rid && forall|k: int| 0 <= k < i ==> d[k].result_id@ != rid;
        assert(actions[i] == d[i]);
        assert forall|k: int| 0 <= k < i implies actions[k].result_id@ != rid by {
            assert(actions[k] == d[k]);
        }
    } else {
        let w = choose|w: int| 0 <= w < actions.len() && (#[trigger] actions[w]).result_id@ == rid;
        if w < d.len() {
            assert(d[w] == actions[w]);
        }
        assert(w == actions.len() - 1);
        assert forall|k: int| 0 <= k < w implies actions[k].result_id@ != rid by {
            assert(actions[k] == d[k]);
        }
    }
}

/// Upserting keeps every result id that was held, holds the new one, and
/// keeps result ids unique.
proof fn lemma_upserted_action(actions: Seq<PluginAction>, a: PluginAction)
    ensures
        holds_result_id(upserted_action(actions, a), a.result_id@),
        forall|rid: Seq<char>| holds_result_id(actions, rid) ==> holds_result_id(upserted_action(actions, a), rid),
        unique_result_ids(actions) ==> unique_result_ids(upserted_action(actions, a)),
{
    let u = upserted_action(actions, a);
    if holds_result_id(actions, a.result_id@) {
        lemma_first_holder(actions, a.result_id@);
        let i = choose|i: int|
            0 <= i < actions.len() && (#[trigger] actions[i]).result_id@ == a.result_id@ && forall|k: int|
                0 <= k < i ==> actions[k].result_id@ != a.result_id@;
        assert(u == actions.update(i, a));
        assert(u[i].result_id@ == a.result_id@);
        assert forall|rid: Seq<char>| holds_result_id(actions, rid) implies holds_result_id(u, rid) by {
            let w = choose|w: int| 0 <= w < actions.len() && (#[trigger] actions[w]).result_id@ == rid;
            if w == i {
                assert(u[i].result_id@ == rid);
            } else {
                assert(u[w] == actions[w]);
            }
        }
        if unique_result_ids(actions) {
            assert forall|p: int, q: int| 0 <= p < q < u.len() implies (#[trigger] u[p]).result_id@ != (
            #[trigger] u[q]).result_id@ by {
                if p == i {
                    assert(actions[q].result_id@ != actions[i].result_id@);
                } else if q == i {
                    assert(actions[p].result_id@ != actions[i].result_id@);
                } else {
                    assert(actions[p].result_id@ != actions[q].result_id@);
                }
            }
        }
    } else {
        assert(u == actions.push(a));
        assert(u[actions.len() as int] == a);
        assert forall|rid: Seq<char>| holds_result_id(actions, rid) implies holds_result_id(u, rid) by {
            let w = choose|w: int| 0 <= w < actions.len() && (#[trigger] actions[w]).result_id@ == rid;
            assert(u[w] == actions[w]);
        }
        if unique_result_ids(actions) {
            assert forall|p: int, q: int| 0 <= p < q < u.len() implies (#[trigger] u[p]).result_id@ != (
            #[trigger] u[q]).result_id@ by {
                if q == actions.len() {
                    assert(u[p] == actions[p]);
                    if actions[p].result_id@ == a.result_id@ {
                        assert(holds_result_id(actions, a.result_id@));
                    }
                } else {
                    assert(actions[p].result_id@ != actions[q].result_id@);
                }
            }
        }
    }
}

/// Replaces the action with the same result id, or appends it.
fn upsert_action(actions: &mut Vec<PluginAction>, action: PluginAction)
    ensures
        final(actions)@ == upserted_action(old(actions)@, action),
{
    let mut i: usize = 0;
    while i < actions.len()
        invariant
            i <= actions@.len(),
            actions@ == old(actions)@,
            forall|k: int| 0 <= k < i ==> (#[trigger] actions@[k]).result_id@ != action.result_id@,
        decreases actions@.len() - i,
    {
        if text::str_eq(actions[i].result_id.as_str(), action.result_id.as_str()) {
            proof {
                assert(holds_result_id(actions@, action.result_id@)) by {
                    assert(actions@[i as int].result_id@ == action.result_id@);
                }
                let c = choose|c: int|
                    0 <= c < actions@.len() && (#[trigger] actions@[c]).result_id@ == action.result_id@ && forall|k: int|
                        0 <= k < c ==> actions@[k].result_id@ != action.result_id@;
                lemma_first_holder(actions@, action.result_id@);
                assert(c == i as int) by {
                    if c < i {
                        assert(actions@[c].result_id@ != action.result_id@);
                    }
                    if c > i {
                        assert(actions@[i as int].result_id@ == action.result_id@);
                    }
                }
            }
            actions.set(i, action);
            return;
        }
        i = i + 1;
    }
    proof {
        assert(!holds_result_id(actions@, action.result_id@));
    }
    actions.push(action);
}

/// A manifest as read from a file: the file's path, and the manifest or why
/// it could not be read.
pub type LoadedManifest = (String, Result<PluginManifest, String>);

/// The manifest a loaded file contributes: read, and with a non-blank id.
pub open spec fn accepted(l: LoadedManifest) -> Option<PluginManifest> {
    match l.1 {
        Ok(m) => if text::trim(m.id@).len() > 0 { Some(m) } else { None },
        Err(_) => None,
    }
}

/// Why a loaded file contributes nothing, if it does not.
pub open spec fn load_failure(l: LoadedManifest) -> Option<Seq<char>> {
    match l.1 {
        Ok(m) => if text::trim(m.id@).len() > 0 { None } else { Some("missing plugin id"@) },
        Err(e) => Some(e@),
    }
}

/// The warnings that the loaded files give, in order.
pub open spec fn load_warnings_of(loaded: Seq<LoadedManifest>) -> Seq<Seq<char>>
    decreases loaded.len(),
{
    if loaded.len() == 0 {
        Seq::empty()
    } else {
        load_warnings_of(loaded.drop_last()) + match load_failure(loaded.last()) {
            Some(e) => seq!["plugin manifest '"@ + loaded.last().0@ + "' failed: "@ + e],
            None => Seq::empty(),
        }
    }
}

/// The provider items that the accepted, enabled manifests contribute, in order.
pub open spec fn loaded_provider_fields(loaded: Seq<LoadedManifest>) -> Seq<(Seq<char>, Seq<char>, Seq<char>, Seq<char>)>
    decreases loaded.len(),
{
    if loaded.len() == 0 {
        Seq::empty()
    } else {
        loaded_provider_fields(loaded.drop_last()) + match accepted(loaded.last()) {
            Some(m) => if m.enabled {
                provider_items_fields(text::trim(m.id@), m.provider_items@)
            } else {
                Seq::empty()
            },
            None => Seq::empty(),
        }
    }
}

/// The action items that the accepted, enabled manifests contribute, in order.
pub open spec fn loaded_action_fields(loaded: Seq<LoadedManifest>) -> Seq<(Seq<char>, Seq<char>, Seq<char>, Seq<char>)>
    decreases loaded.len(),
{
    if loaded.len() == 0 {
        Seq::empty()
    } else {
        loaded_action_fields(loaded.drop_last()) + match accepted(loaded.last()) {
            Some(m) => if m.enabled {
                action_items_fields(text::trim(m.id@), plugin_label(m), m.actions@)
            } else {
                Seq::empty()
            },
            None => Seq::empty(),
        }
    }
}

/// `items` carry exactly the fields `fields`, in order.
pub open spec fn items_carry(items: Seq<SearchItem>, fields: Seq<(Seq<char>, Seq<char>, Seq<char>, Seq<char>)>) -> bool {
    &&& items.len() == fields.len()
    &&& forall|k: int| 0 <= k < fields.len() ==> #[trigger] item_has_fields(items[k], fields[k])
}

proof fn lemma_items_carry_append(
    before: Seq<SearchItem>,
    after: Seq<SearchItem>,
    fields: Seq<(Seq<char>, Seq<char>, Seq<char>, Seq<char>)>,
    added: Seq<(Seq<char>, Seq<char>, Seq<char>, Seq<char>)>,
)
    requires
        items_carry(before, fields),
        after.len() == before.len() + added.len(),
        after.take(before.len() as int) == before,
        forall|k: int| 0 <= k < added.len() ==> #[trigger] item_has_fields(after[before.len() + k], added[k]),
    ensures
        items_carry(after, fields + added),
{
    let all = fields + added;
    assert forall|k: int| 0 <= k < all.len() implies #[trigger] item_has_fields(after[k], all[k]) by {
        if k < fields.len() {
            assert(after.take(before.len() as int)[k] == after[k]);
            assert(all[k] == fields[k]);
        } else {
            assert(all[k] == added[k - fields.len()]);
            assert(after[before.len() + (k - fields.len())] == after[k]);
        }
    }
}

impl PluginRegistry {
    /// The registry that the plugin files give (the files are found and read
    /// by the caller, in order): nothing when plugins are off; otherwise each
    /// accepted, enabled manifest is added in turn, and each file that could
    /// not be read, or lacks an id, leaves a warning.
    pub fn load_from_config(cfg: &Config, loaded: Vec<LoadedManifest>) -> (r: PluginRegistry)
        ensures
            !cfg.plugins_enabled ==> r.provider_items@.len() == 0 && r.action_items@.len() == 0
                && r.actions@.len() == 0 && r.load_warnings@.len() == 0,
            cfg.plugins_enabled ==> {
                &&& strings(r.load_warnings@) == load_warnings_of(loaded@)
                &&& items_carry(r.provider_items@, loaded_provider_fields(loaded@))
                &&& items_carry(r.action_items@, loaded_action_fields(loaded@))
                &&& unique_result_ids(r.actions@)
                &&& forall|k: int|
                    0 <= k < loaded_action_fields(loaded@).len() ==> holds_result_id(
                        r.actions@,
                        #[trigger] loaded_action_fields(loaded@)[k].0,
                    )
            },
    {
        let mut registry = PluginRegistry::default();
        if !cfg.plugins_enabled {
            return registry;
        }
        let ghost all = loaded@;
        let mut rest = loaded;
        let mut i: usize = 0;
        let n = rest.len();
        proof {
            assert(all.take(0) =~= Seq::<LoadedManifest>::empty());
            assert(strings(registry.load_warnings@) =~= Seq::<Seq<char>>::empty());
        }
        while i < n
            invariant
                n == all.len(),
                i <= n,
                rest@ == all.skip(i as int),
                strings(registry.load_warnings@) == load_warnings_of(all.take(i as int)),
                items_carry(registry.provider_items@, loaded_provider_fields(all.take(i as int))),
                items_carry(registry.action_items@, loaded_action_fields(all.take(i as int))),
                unique_result_ids(registry.actions@),
                forall|k: int|
                    0 <= k < loaded_action_fields(all.take(i as int)).len() ==> holds_result_id(
                        registry.actions@,
                        #[trigger] loaded_action_fields(all.take(i as int))[k].0,
                    ),
            decreases n - i,
        {
            let ghost t = all.take((i + 1) as int);
            proof {
                assert(rest@[0] == all[i as int]);
            }
            let item = rest.remove(0);
            proof {
                assert(rest@ =~= all.skip(i + 1));
                assert(t.drop_last() =~= all.take(i as int));
                assert(t.last() == all[i as int]);
            }
            let ghost prev_provider = loaded_provider_fields(all.take(i as int));
            let ghost prev_action = loaded_action_fields(all.take(i as int));
            let (path, outcome) = item;
            match outcome {
                Ok(manifest) => {
                    match check_manifest(&manifest) {
                        Ok(()) => {
                            let ghost m = manifest;
                            let ghost before = registry;
                            append_manifest(&mut registry, manifest);
                            proof {
                                if m.enabled {
                                    let pid = text::trim(m.id@);
                                    lemma_items_carry_append(
                                        before.provider_items@,
                                        registry.provider_items@,
                                        prev_provider,
                                        provider_items_fields(pid, m.provider_items@),
                                    );
                                    lemma_items_carry_append(
                                        before.action_items@,
                                        registry.action_items@,
                                        prev_action,
                                        action_items_fields(pid, plugin_label(m), m.actions@),
                                    );
                                    let added = action_items_fields(pid, plugin_label(m), m.actions@);
                                    let now_fields = loaded_action_fields(t);
                                    assert(now_fields == prev_action + added);
                                    assert forall|k: int| 0 <= k < now_fields.len() implies holds_result_id(
                                        registry.actions@,
                                        #[trigger] now_fields[k].0,
                                    ) by {
                                        if k < prev_action.len() {
                                            assert(now_fields[k] == prev_action[k]);
                                            assert(holds_result_id(before.actions@, prev_action[k].0));
                                        } else {
                                            assert(now_fields[k] == added[k - prev_action.len()]);
                                        }
                                    }
                                } else {
                                    assert(loaded_provider_fields(t) =~= prev_provider);
                                    assert(loaded_action_fields(t) =~= prev_action);
                                }
                                assert(load_warnings_of(t) =~= load_warnings_of(all.take(i as int)));
                            }
                        },
                        Err(e) => {
                            let mut w = text::owned("plugin manifest '");
                            text::push_str(&mut w, path.as_str());
                            text::push_str(&mut w, "' failed: ");
                            text::push_str(&mut w, e.as_str());
                            let ghost before_w = registry.load_warnings@;
                            registry.load_warnings.push(w);
                            proof {
                                assert(strings(registry.load_warnings@) =~= strings(before_w).push(w@));
                                assert(loaded_provider_fields(t) =~= prev_provider);
                                assert(loaded_action_fields(t) =~= prev_action);
                            }
                        },
                    }
                },
                Err(e) => {
                    let mut w = text::owned("plugin manifest '");
                    text::push_str(&mut w, path.as_str());
                    text::push_str(&mut w, "' failed: ");
                    text::push_str(&mut w, e.as_str());
                    let ghost before_w = registry.load_warnings@;
                    registry.load_warnings.push(w);
                    proof {
                        assert(strings(registry.load_warnings@) =~= strings(before_w).push(w@));
                        assert(loaded_provider_fields(t) =~= prev_provider);
                        assert(loaded_action_fields(t) =~= prev_action);
                    }
                },
            }
            i = i + 1;
        }
        proof {
            assert(all.take(n as int) =~= all);
        }
        registry
    }

    /// The action behind a plugin result id.
    pub fn action_for(&self, result_id: &str) -> (r: Option<&PluginAction>)
        ensures
            match r {
                Some(a) => exists|i: int| 0 <= i < self.actions@.len() && self.actions@[i] == *a && a.result_id@
                    == result_id@,
                None => forall|i: int| 0 <= i < self.actions@.len() ==> self.actions@[i].result_id@ != result_id@,
            },
    {
        let mut i: usize = 0;
        while i < self.actions.len()
            invariant
                i <= self.actions@.len(),
                forall|k: int| 0 <= k < i ==> self.actions@[k].result_id@ != result_id@,
            decreases self.actions@.len() - i,
        {
            if text::str_eq(self.actions[i].result_id.as_str(), result_id) {
                return Some(&self.actions[i]);
            }
            i = i + 1;
        }
        None
    }
}

} // verus!
