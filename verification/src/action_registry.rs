//! The built-in actions and their search.
use vstd::prelude::*;

use crate::model::{normalize, SearchItem};
use crate::text;

verus! {

pub const ACTION_OPEN_LOGS_ID: &'static str = "__swiftfind_action_open_logs__";

pub const ACTION_REBUILD_INDEX_ID: &'static str = "__swiftfind_action_rebuild_index__";

pub const ACTION_CLEAR_CLIPBOARD_ID: &'static str = "__swiftfind_action_clear_clipboard__";

pub const ACTION_OPEN_CONFIG_ID: &'static str = "__swiftfind_action_open_config__";

pub const ACTION_DIAGNOSTICS_BUNDLE_ID: &'static str = "__swiftfind_action_diagnostics_bundle__";

/// An action that SwiftFind itself performs.
#[derive(Debug, Clone, Copy)]
pub struct BuiltInAction {
    pub id: &'static str,
    pub title: &'static str,
    pub subtitle: &'static str,
    pub keywords: &'static [&'static str],
}

/// The texts of an action: id, title, subtitle and keywords.
pub struct ActionText {
    pub id: Seq<char>,
    pub title: Seq<char>,
    pub subtitle: Seq<char>,
    pub keywords: Seq<Seq<char>>,
}

pub open spec fn action_text(a: BuiltInAction) -> ActionText {
    ActionText {
        id: a.id@,
        title: a.title@,
        subtitle: a.subtitle@,
        keywords: a.keywords@.map_values(|k: &str| k@),
    }
}

/// The built-in actions, in the order they are offered.
pub open spec fn built_in_list() -> Seq<ActionText> {
    seq![
        ActionText {
            id: "__swiftfind_action_open_logs__"@,
            title: "Open SwiftFind Logs Folder"@,
            subtitle: "Open logs directory in File Explorer"@,
            keywords: seq!["logs"@, "log"@, "debug"@],
        },
        ActionText {
            id: "__swiftfind_action_rebuild_index__"@,
            title: "Rebuild Search Index"@,
            subtitle: "Force a full refresh of indexed items"@,
            keywords: seq!["rebuild"@, "index"@, "refresh"@],
        },
        ActionText {
            id: "__swiftfind_action_clear_clipboard__"@,
            title: "Clear Clipboard History"@,
            subtitle: "Delete local clipboard history entries"@,
            keywords: seq!["clipboard"@, "clear"@, "history"@],
        },
        ActionText {
            id: "__swiftfind_action_open_config__"@,
            title: "Open SwiftFind Config"@,
            subtitle: "Open config.json"@,
            keywords: seq!["config"@, "settings"@, "preferences"@],
        },
        ActionText {
            id: "__swiftfind_action_diagnostics_bundle__"@,
            title: "Create Diagnostics Bundle"@,
            subtitle: "Export logs and sanitized config for support"@,
            keywords: seq!["diagnostics"@, "support"@, "bundle"@, "debug"@],
        },
    ]
}

pub fn built_in_actions() -> (actions: Vec<BuiltInAction>)
    ensures
        actions@.map_values(|a: BuiltInAction| action_text(a)) == built_in_list(),
{
    let mut actions: Vec<BuiltInAction> = Vec::new();
    actions.push(BuiltInAction {
        id: ACTION_OPEN_LOGS_ID,
        title: "Open SwiftFind Logs Folder",
        subtitle: "Open logs directory in File Explorer",
        keywords: &["logs", "log", "debug"],
    });
    actions.push(BuiltInAction {
        id: ACTION_REBUILD_INDEX_ID,
        title: "Rebuild Search Index",
        subtitle: "Force a full refresh of indexed items",
        keywords: &["rebuild", "index", "refresh"],
    });
    actions.push(BuiltInAction {
        id: ACTION_CLEAR_CLIPBOARD_ID,
        title: "Clear Clipboard History",
        subtitle: "Delete local clipboard history entries",
        keywords: &["clipboard", "clear", "history"],
    });
    actions.push(BuiltInAction {
        id: ACTION_OPEN_CONFIG_ID,
        title: "Open SwiftFind Config",
        subtitle: "Open config.json",
        keywords: &["config", "settings", "preferences"],
    });
    actions.push(BuiltInAction {
        id: ACTION_DIAGNOSTICS_BUNDLE_ID,
        title: "Create Diagnostics Bundle",
        subtitle: "Export logs and sanitized config for support",
        keywords: &["diagnostics", "support", "bundle", "debug"],
    });
    proof {
        assert(action_text(actions@[0]).keywords =~= seq!["logs"@, "log"@, "debug"@]);
        assert(action_text(actions@[0]) == built_in_list()[0]);
        assert(action_text(actions@[1]).keywords =~= seq!["rebuild"@, "index"@, "refresh"@]);
        assert(action_text(actions@[1]) == built_in_list()[1]);
        assert(action_text(actions@[2]).keywords =~= seq!["clipboard"@, "clear"@, "history"@]);
        assert(action_text(actions@[2]) == built_in_list()[2]);
        assert(action_text(actions@[3]).keywords =~= seq!["config"@, "settings"@, "preferences"@]);
        assert(action_text(actions@[3]) == built_in_list()[3]);
        assert(action_text(actions@[4]).keywords =~= seq!["diagnostics"@, "support"@, "bundle"@, "debug"@]);
        assert(action_text(actions@[4]) == built_in_list()[4]);
        assert(actions@.map_values(|a: BuiltInAction| action_text(a)) =~= built_in_list());
    }
    actions
}


/// An action matches a normalized query when the query is empty or occurs in
/// its normalized title or one of its normalized keywords.
pub open spec fn action_matches(a: ActionText, q: Seq<char>) -> bool {
    q.len() == 0 || text::contains(normalize(a.title), q) || exists|k: int|
        0 <= k < a.keywords.len() && text::contains(normalize(#[trigger] a.keywords[k]), q)
}

/// The matching actions, in order.
pub open spec fn matching_actions(actions: Seq<ActionText>, q: Seq<char>) -> Seq<ActionText>
    decreases actions.len(),
{
    if actions.len() == 0 {
        Seq::empty()
    } else {
        matching_actions(actions.drop_last(), q) + (if action_matches(actions.last(), q) {
            seq![actions.last()]
        } else {
            Seq::empty()
        })
    }
}

/// `item` shows the action `a`.
pub open spec fn is_action_item(item: SearchItem, a: ActionText) -> bool {
    &&& item.id@ == a.id
    &&& item.kind@ == "action"@
    &&& item.title@ == a.title
    &&& item.path@ == a.subtitle
    &&& item.use_count == 0
    &&& item.last_accessed_epoch_secs == 0
    &&& item.normalized_from_fields()
}

fn matches_query(a: &BuiltInAction, q: &Vec<char>) -> (b: bool)
    ensures
        b == action_matches(action_text(*a), q@),
{
    if q.len() == 0 {
        return true;
    }
    let tv = text::chars_of(a.title);
    let t = crate::model::normalize_chars(&tv);
    if text::vec_contains(&t, q) {
        return true;
    }
    let mut k: usize = 0;
    while k < a.keywords.len()
        invariant
            k <= a.keywords@.len(),
            q@.len() > 0,
            !text::contains(normalize(a.title@), q@),
            forall|m: int| 0 <= m < k ==> !text::contains(normalize(#[trigger] action_text(*a).keywords[m]), q@),
        decreases a.keywords@.len() - k,
    {
        let kv = text::chars_of(a.keywords[k]);
        let n = crate::model::normalize_chars(&kv);
        proof {
            assert(action_text(*a).keywords[k as int] == a.keywords@[k as int]@);
        }
        if text::vec_contains(&n, q) {
            return true;
        }
        k = k + 1;
    }
    false
}

/// The built-in actions that match `query`, at most `limit` of them, in
/// their fixed order.
/// `out` lists, in registry order, the first `limit` built-in actions that
/// match `query`.
pub open spec fn action_search_result(query: Seq<char>, limit: int, out: Seq<SearchItem>) -> bool {
    let m = matching_actions(built_in_list(), normalize(query));
    &&& out.len() == (if limit <= m.len() { limit } else { m.len() as int })
    &&& forall|k: int| 0 <= k < out.len() ==> is_action_item(#[trigger] out[k], m[k])
}

pub fn search_actions(query: &str, limit: usize) -> (out: Vec<SearchItem>)
    ensures
        action_search_result(query@, limit as int, out@),
{
    if limit == 0 {
        return Vec::new();
    }
    let qv = text::chars_of(query);
    let q = crate::model::normalize_chars(&qv);
    let actions = built_in_actions();
    let ghost all = built_in_list();
    let mut out: Vec<SearchItem> = Vec::new();
    let mut i: usize = 0;
    while i < actions.len()
        invariant
            i <= actions@.len(),
            limit > 0,
            all == built_in_list(),
            q@ == normalize(query@),
            actions@.map_values(|a: BuiltInAction| action_text(a)) == all,
            out@.len() == matching_actions(all.take(i as int), q@).len(),
            out@.len() < limit,
            forall|k: int| 0 <= k < out@.len() ==> is_action_item(#[trigger] out@[k], matching_actions(all.take(i as int), q@)[k]),
        decreases actions@.len() - i,
    {
        let a = &actions[i];
        let ghost before = matching_actions(all.take(i as int), q@);
        proof {
            assert(all.take((i + 1) as int).drop_last() =~= all.take(i as int));
            assert(all.take((i + 1) as int).last() == action_text(actions@[i as int]));
        }
        if matches_query(a, &q) {
            let item = SearchItem::new(a.id, "action", a.title, a.subtitle);
            out.push(item);
            proof {
                let after = matching_actions(all.take((i + 1) as int), q@);
                assert(after =~= before.push(action_text(*a)));
                assert forall|k: int| 0 <= k < out@.len() implies is_action_item(#[trigger] out@[k], after[k]) by {
                    if k < before.len() {
                        assert(after[k] == before[k]);
                    }
                }
            }
            if out.len() >= limit {
                proof {
                    lemma_matching_prefix(all, q@, (i + 1) as int);
                    let m = matching_actions(all, q@);
                    assert forall|k: int| 0 <= k < out@.len() implies is_action_item(#[trigger] out@[k], m[k]) by {
                        assert(m[k] == matching_actions(all.take((i + 1) as int), q@)[k]);
                    }
                }
                return out;
            }
        } else {
            proof {
                assert(matching_actions(all.take((i + 1) as int), q@) =~= before);
            }
        }
        i = i + 1;
    }
    proof {
        assert(all.take(actions@.len() as int) =~= all);
        assert(actions@.len() == all.len());
    }
    out
}

proof fn lemma_matching_prefix(all: Seq<ActionText>, q: Seq<char>, n: int)
    requires
        0 <= n <= all.len(),
    ensures
        matching_actions(all, q).len() >= matching_actions(all.take(n), q).len(),
        forall|k: int| 0 <= k < matching_actions(all.take(n), q).len() ==> #[trigger] matching_actions(all, q)[k]
            == matching_actions(all.take(n), q)[k],
    decreases all.len() - n,
{
    if n < all.len() {
        lemma_matching_prefix(all, q, n + 1);
        assert(all.take(n + 1).drop_last() =~= all.take(n));
    } else {
        assert(all.take(n) =~= all);
    }
}

} // verus!
