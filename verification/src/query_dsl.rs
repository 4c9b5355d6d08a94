//! The query language: mode, kind, extension and time filters, and
//! AND / OR / NOT term groups.
use vstd::prelude::*;

use crate::config::{parse_mode, parse_mode_chars, SearchMode};
use crate::model::{normalize, normalize_chars};
use crate::search::views;
use crate::text;

verus! {

/// How recent a file must be for a `modified:` or `created:` filter.
#[derive(Debug, Clone, Copy, PartialEq, Eq, Structural)]
pub enum TimeFilterWindow {
    Today,
    Week,
    Month,
}

// ---------------------------------------------------------------------------
// Tokens
// ---------------------------------------------------------------------------

/// The tokenizer's state after reading `s`: the finished tokens, the token being
/// read, and whether a double quote is open.
pub open spec fn tokenizer_state(s: Seq<char>) -> (Seq<Seq<char>>, Seq<char>, bool)
    decreases s.len(),
{
    if s.len() == 0 {
        (Seq::empty(), Seq::empty(), false)
    } else {
        let prev = tokenizer_state(s.drop_last());
        let ch = s.last();
        if ch == '"' {
            (prev.0, prev.1, !prev.2)
        } else if text::is_ws(ch) && !prev.2 {
            if prev.1.len() > 0 {
                (prev.0.push(prev.1), Seq::empty(), prev.2)
            } else {
                prev
            }
        } else {
            (prev.0, prev.1.push(ch), prev.2)
        }
    }
}

/// The tokens of `s`: whitespace separates them except between double quotes,
/// and the quotes themselves are dropped.
pub open spec fn tokenize(s: Seq<char>) -> Seq<Seq<char>> {
    let st = tokenizer_state(s);
    if st.1.len() > 0 {
        st.0.push(st.1)
    } else {
        st.0
    }
}

fn tokenize_chars(input: &Vec<char>) -> (tokens: Vec<Vec<char>>)
    ensures
        views(tokens@) == tokenize(input@),
{
    let mut tokens: Vec<Vec<char>> = Vec::new();
    let mut current: Vec<char> = Vec::new();
    let mut in_quotes = false;
    let mut i: usize = 0;
    while i < input.len()
        invariant
            i <= input.len(),
            (views(tokens@), current@, in_quotes) == tokenizer_state(input@.take(i as int)),
        decreases input.len() - i,
    {
        let ch = input[i];
        proof {
            assert(input@.take((i + 1) as int).drop_last() =~= input@.take(i as int));
        }
        if ch == '"' {
            in_quotes = !in_quotes;
        } else if text::is_whitespace(ch) && !in_quotes {
            if current.len() > 0 {
                let ghost old_tokens = tokens@;
                tokens.push(current);
                current = Vec::new();
                proof {
                    assert(views(tokens@) =~= views(old_tokens).push(tokens@.last()@));
                }
            }
        } else {
            current.push(ch);
        }
        i = i + 1;
    }
    proof {
        assert(input@.take(input.len() as int) =~= input@);
    }
    if current.len() > 0 {
        let ghost old_tokens = tokens@;
        tokens.push(current);
        proof {
            assert(views(tokens@) =~= views(old_tokens).push(tokens@.last()@));
        }
    }
    tokens
}

// ---------------------------------------------------------------------------
// Token forms
// ---------------------------------------------------------------------------

/// What follows `prefix` (or its ASCII upper-case form) at the start of `t`.
pub open spec fn prefixed(t: Seq<char>, prefix: Seq<char>) -> Option<Seq<char>> {
    if text::starts_with(t, prefix) {
        Some(t.skip(prefix.len() as int))
    } else if text::starts_with(t, text::ascii_upper(prefix)) {
        Some(t.skip(prefix.len() as int))
    } else {
        None
    }
}

fn parse_prefixed(t: &Vec<char>, prefix: &str) -> (r: Option<Vec<char>>)
    ensures
        match r {
            Some(v) => prefixed(t@, prefix@) == Some(v@),
            None => prefixed(t@, prefix@) is None,
        },
{
    let p = text::chars_of(prefix);
    if text::vec_starts_with(t, &p) {
        return Some(text::slice_vec(t, p.len(), t.len()));
    }
    let pu = text::upper_vec(&p);
    if text::vec_starts_with(t, &pu) {
        return Some(text::slice_vec(t, p.len(), t.len()));
    }
    None
}

/// The mode named by an `@mode` token.
pub open spec fn mode_token(t: Seq<char>) -> Option<SearchMode> {
    let tt = text::trim(t);
    if tt.len() > 0 && tt[0] == '@' {
        parse_mode(text::strip_leading(tt, '@'))
    } else {
        None
    }
}

fn parse_mode_token(t: &Vec<char>) -> (m: Option<SearchMode>)
    ensures
        m == mode_token(t@),
{
    let tt = text::trim_vec(t);
    if tt.len() == 0 || tt[0] != '@' {
        return None;
    }
    let rest = text::strip_leading_vec(&tt, '@');
    parse_mode_chars(&rest)
}

/// The window named by the value of a `modified:` or `created:` token.
pub open spec fn time_filter(v: Seq<char>) -> Option<TimeFilterWindow> {
    let n = text::ascii_lower(text::trim(v));
    if n == "today"@ {
        Some(TimeFilterWindow::Today)
    } else if n == "week"@ || n == "last_week"@ {
        Some(TimeFilterWindow::Week)
    } else if n == "month"@ || n == "last_month"@ {
        Some(TimeFilterWindow::Month)
    } else {
        None
    }
}

fn parse_time_filter(v: &Vec<char>) -> (w: Option<TimeFilterWindow>)
    ensures
        w == time_filter(v@),
{
    let t = text::trim_vec(v);
    let n = text::lower_vec(&t);
    if text::vec_eq_str(&n, "today") {
        Some(TimeFilterWindow::Today)
    } else if text::vec_eq_str(&n, "week") || text::vec_eq_str(&n, "last_week") {
        Some(TimeFilterWindow::Week)
    } else if text::vec_eq_str(&n, "month") || text::vec_eq_str(&n, "last_month") {
        Some(TimeFilterWindow::Month)
    } else {
        None
    }
}

/// An extension filter value: trimmed, leading dots dropped, lowercased.
pub open spec fn extension_value(v: Seq<char>) -> Seq<char> {
    text::unicode_lower(text::strip_leading(text::trim(v), '.'))
}

fn normalize_extension_filter(v: &Vec<char>) -> (out: Vec<char>)
    ensures
        out@ == extension_value(v@),
{
    let t = text::trim_vec(v);
    let s = text::strip_leading_vec(&t, '.');
    text::unicode_lower_vec(&s)
}

/// The value of an `ext:` or `extension:` token.
pub open spec fn ext_token(t: Seq<char>) -> Option<Seq<char>> {
    if prefixed(t, "ext:"@) is Some {
        prefixed(t, "ext:"@)
    } else {
        prefixed(t, "extension:"@)
    }
}

// ---------------------------------------------------------------------------
// The parse, token by token
// ---------------------------------------------------------------------------

/// What the parser has gathered so far.
pub struct DslState {
    pub mode_override: Option<SearchMode>,
    pub kind_filter: Option<Seq<char>>,
    pub extension_filter: Option<Seq<char>>,
    pub groups: Seq<Seq<Seq<char>>>,
    pub exclude: Seq<Seq<char>>,
    pub free: Seq<Seq<char>>,
    pub expect_not: bool,
    pub modified_within: Option<TimeFilterWindow>,
    pub created_within: Option<TimeFilterWindow>,
}

/// `groups` with `term` added to its last group (a first group is opened if there is none).
pub open spec fn add_to_last_group(groups: Seq<Seq<Seq<char>>>, term: Seq<char>) -> Seq<Seq<Seq<char>>> {
    if groups.len() == 0 {
        seq![seq![term]]
    } else {
        groups.update(groups.len() - 1, groups.last().push(term))
    }
}

/// A search term token: `-x` excludes `x`, as does any term right after `NOT`;
/// other terms join the current OR group and the free text.
pub open spec fn term_step(st: DslState, t: Seq<char>) -> DslState {
    let negative = t.len() > 1 && t[0] == '-';
    let target = if negative { t.drop_first() } else { t };
    let n = normalize(target);
    if n.len() == 0 {
        DslState { expect_not: false, ..st }
    } else if st.expect_not || negative {
        DslState { exclude: st.exclude.push(n), expect_not: false, ..st }
    } else {
        DslState {
            groups: add_to_last_group(st.groups, n),
            free: st.free.push(target),
            expect_not: false,
            ..st
        }
    }
}

/// The effect of one token on the parse.
pub open spec fn dsl_step(st: DslState, token: Seq<char>) -> DslState {
    let t = text::trim(token);
    let upper = text::ascii_upper(t);
    if t.len() == 0 || upper == "AND"@ {
        st
    } else if upper == "OR"@ {
        DslState { groups: st.groups.push(Seq::empty()), expect_not: false, ..st }
    } else if upper == "NOT"@ {
        DslState { expect_not: true, ..st }
    } else if mode_token(t) is Some {
        DslState { mode_override: mode_token(t), expect_not: false, ..st }
    } else if prefixed(t, "mode:"@) is Some {
        let m = parse_mode(prefixed(t, "mode:"@)->0);
        DslState {
            mode_override: if m is Some { m } else { st.mode_override },
            expect_not: false,
            ..st
        }
    } else if prefixed(t, "kind:"@) is Some {
        let n = text::ascii_lower(text::trim(prefixed(t, "kind:"@)->0));
        DslState {
            kind_filter: if n.len() > 0 { Some(n) } else { st.kind_filter },
            expect_not: false,
            ..st
        }
    } else if ext_token(t) is Some {
        let n = extension_value(ext_token(t)->0);
        DslState {
            extension_filter: if n.len() > 0 { Some(n) } else { st.extension_filter },
            expect_not: false,
            ..st
        }
    } else if prefixed(t, "modified:"@) is Some {
        DslState {
            modified_within: time_filter(prefixed(t, "modified:"@)->0),
            expect_not: false,
            ..st
        }
    } else if prefixed(t, "created:"@) is Some {
        DslState {
            created_within: time_filter(prefixed(t, "created:"@)->0),
            expect_not: false,
            ..st
        }
    } else {
        term_step(st, t)
    }
}

/// The parse state after the tokens `toks`, from `st`.
pub open spec fn dsl_fold(st: DslState, toks: Seq<Seq<char>>) -> DslState
    decreases toks.len(),
{
    if toks.len() == 0 {
        st
    } else {
        dsl_step(dsl_fold(st, toks.drop_last()), toks.last())
    }
}

/// The state the parse starts from: one empty group, and the Actions mode in
/// command mode.
pub open spec fn dsl_start(command_mode: bool) -> DslState {
    DslState {
        mode_override: if command_mode { Some(SearchMode::Actions) } else { None },
        kind_filter: None,
        extension_filter: None,
        groups: seq![Seq::empty()],
        exclude: Seq::empty(),
        free: Seq::empty(),
        expect_not: false,
        modified_within: None,
        created_within: None,
    }
}

/// A trimmed query starting with `>` is a command query.
pub open spec fn is_command(raw: Seq<char>) -> bool {
    raw.len() > 0 && raw[0] == '>'
}

/// The text after the command marker, if any.
pub open spec fn dsl_body(raw: Seq<char>) -> Seq<char> {
    if is_command(raw) {
        text::trim_start(raw.drop_first())
    } else {
        raw
    }
}

/// The parse state after the whole (trimmed, non-empty) query.
pub open spec fn dsl_result(raw: Seq<char>) -> DslState {
    dsl_fold(dsl_start(is_command(raw)), tokenize(dsl_body(raw)))
}

/// The groups that hold at least one term, in order.
pub open spec fn non_empty_groups(g: Seq<Seq<Seq<char>>>) -> Seq<Seq<Seq<char>>>
    decreases g.len(),
{
    if g.len() == 0 {
        Seq::empty()
    } else if g.last().len() > 0 {
        non_empty_groups(g.drop_last()).push(g.last())
    } else {
        non_empty_groups(g.drop_last())
    }
}

/// `parts` joined with `sep` between each two.
pub open spec fn join(parts: Seq<Seq<char>>, sep: Seq<char>) -> Seq<char>
    decreases parts.len(),
{
    if parts.len() == 0 {
        Seq::empty()
    } else if parts.len() == 1 {
        parts[0]
    } else {
        join(parts.drop_last(), sep) + sep + parts.last()
    }
}

// ---------------------------------------------------------------------------
// Executable state
// ---------------------------------------------------------------------------

struct DslAcc {
    mode_override: Option<SearchMode>,
    kind_filter: Option<Vec<char>>,
    extension_filter: Option<Vec<char>>,
    groups: Vec<Vec<Vec<char>>>,
    exclude: Vec<Vec<char>>,
    free: Vec<Vec<char>>,
    expect_not: bool,
    modified_within: Option<TimeFilterWindow>,
    created_within: Option<TimeFilterWindow>,
}

/// The text of an optional character vector.
pub open spec fn opt_chars(o: Option<Vec<char>>) -> Option<Seq<char>> {
    match o {
        Some(v) => Some(v@),
        None => None,
    }
}

/// The texts of a vector of groups of character vectors.
pub open spec fn group_views(g: Seq<Vec<Vec<char>>>) -> Seq<Seq<Seq<char>>> {
    g.map_values(|grp: Vec<Vec<char>>| views(grp@))
}

impl DslAcc {
    spec fn state(&self) -> DslState {
        DslState {
            mode_override: self.mode_override,
            kind_filter: opt_chars(self.kind_filter),
            extension_filter: opt_chars(self.extension_filter),
            groups: group_views(self.groups@),
            exclude: views(self.exclude@),
            free: views(self.free@),
            expect_not: self.expect_not,
            modified_within: self.modified_within,
            created_within: self.created_within,
        }
    }

    fn start(command_mode: bool) -> (acc: Self)
        ensures
            acc.state() == dsl_start(command_mode),
    {
        let mut groups: Vec<Vec<Vec<char>>> = Vec::new();
        groups.push(Vec::new());
        let acc = DslAcc {
            mode_override: if command_mode { Some(SearchMode::Actions) } else { None },
            kind_filter: None,
            extension_filter: None,
            groups,
            exclude: Vec::new(),
            free: Vec::new(),
            expect_not: false,
            modified_within: None,
            created_within: None,
        };
        proof {
            assert(group_views(acc.groups@) =~= seq![Seq::<Seq<char>>::empty()]) by {
                assert(views(acc.groups@[0]@) =~= Seq::<Seq<char>>::empty());
            }
            assert(views(acc.exclude@) =~= Seq::<Seq<char>>::empty());
            assert(views(acc.free@) =~= Seq::<Seq<char>>::empty());
        }
        acc
    }

    fn add_term(&mut self, t: &Vec<char>)
        ensures
            final(self).state() == term_step(old(self).state(), t@),
    {
        let negative = t.len() > 1 && t[0] == '-';
        let target = if negative { text::slice_vec(t, 1, t.len()) } else { text::slice_vec(t, 0, t.len()) };
        proof {
            assert(t@.subrange(0, t.len() as int) =~= t@);
            assert(t@.subrange(1, t.len() as int) =~= t@.drop_first());
        }
        let n = normalize_chars(&target);
        if n.len() == 0 {
            self.expect_not = false;
            return;
        }
        if self.expect_not || negative {
            let ghost old_ex = self.exclude@;
            self.exclude.push(n);
            proof {
                assert(views(self.exclude@) =~= views(old_ex).push(self.exclude@.last()@));
            }
            self.expect_not = false;
            return;
        }
        let ghost old_groups = self.groups@;
        let ghost n_view = n@;
        match self.groups.pop() {
            Some(mut last) => {
                let ghost old_last = last@;
                last.push(n);
                self.groups.push(last);
                proof {
                    assert(views(self.groups@.last()@) =~= views(old_last).push(n_view));
                    assert(group_views(self.groups@) =~= group_views(old_groups).update(
                        old_groups.len() - 1,
                        group_views(old_groups).last().push(n_view),
                    ));
                }
            },
            None => {
                let mut first: Vec<Vec<char>> = Vec::new();
                first.push(n);
                self.groups.push(first);
                proof {
                    assert(views(self.groups@[0]@) =~= seq![n_view]);
                    assert(group_views(self.groups@) =~= seq![seq![n_view]]);
                }
            },
        }
        let ghost old_free = self.free@;
        self.free.push(target);
        proof {
            assert(views(self.free@) =~= views(old_free).push(self.free@.last()@));
        }
        self.expect_not = false;
    }

    fn step(&mut self, token: &Vec<char>)
        ensures
            final(self).state() == dsl_step(old(self).state(), token@),
    {
        let t = text::trim_vec(token);
        let upper = text::upper_vec(&t);
        if t.len() == 0 || text::vec_eq_str(&upper, "AND") {
            return;
        }
        if text::vec_eq_str(&upper, "OR") {
            let ghost old_groups = self.groups@;
            self.groups.push(Vec::new());
            proof {
                assert(views(self.groups@.last()@) =~= Seq::<Seq<char>>::empty());
                assert(group_views(self.groups@) =~= group_views(old_groups).push(Seq::empty()));
            }
            self.expect_not = false;
            return;
        }
        if text::vec_eq_str(&upper, "NOT") {
            self.expect_not = true;
            return;
        }
        let m = parse_mode_token(&t);
        if m.is_some() {
            self.mode_override = m;
            self.expect_not = false;
            return;
        }
        match parse_prefixed(&t, "mode:") {
            Some(value) => {
                let parsed = parse_mode_chars(&value);
                if parsed.is_some() {
                    self.mode_override = parsed;
                }
                self.expect_not = false;
                return;
            },
            None => {},
        }
        match parse_prefixed(&t, "kind:") {
            Some(value) => {
                let trimmed = text::trim_vec(&value);
                let normalized = text::lower_vec(&trimmed);
                if normalized.len() > 0 {
                    self.kind_filter = Some(normalized);
                }
                self.expect_not = false;
                return;
            },
            None => {},
        }
        let ext = match parse_prefixed(&t, "ext:") {
            Some(value) => Some(value),
            None => parse_prefixed(&t, "extension:"),
        };
        match ext {
            Some(value) => {
                let normalized = normalize_extension_filter(&value);
                if normalized.len() > 0 {
                    self.extension_filter = Some(normalized);
                }
                self.expect_not = false;
                return;
            },
            None => {},
        }
        match parse_prefixed(&t, "modified:") {
            Some(value) => {
                self.modified_within = parse_time_filter(&value);
                self.expect_not = false;
                return;
            },
            None => {},
        }
        match parse_prefixed(&t, "created:") {
            Some(value) => {
                self.created_within = parse_time_filter(&value);
                self.expect_not = false;
                return;
            },
            None => {},
        }
        self.add_term(&t);
    }
}


// ---------------------------------------------------------------------------
// Joining and collecting
// ---------------------------------------------------------------------------

pub(crate) fn join_chars(parts: &Vec<Vec<char>>, sep: char) -> (out: Vec<char>)
    ensures
        out@ == join(views(parts@), seq![sep]),
{
    let mut out: Vec<char> = Vec::new();
    let mut i: usize = 0;
    while i < parts.len()
        invariant
            i <= parts.len(),
            out@ == join(views(parts@).take(i as int), seq![sep]),
        decreases parts.len() - i,
    {
        let ghost before = out@;
        if i > 0 {
            out.push(sep);
        }
        let part = &parts[i];
        let mut k: usize = 0;
        while k < part.len()
            invariant
                k <= part.len(),
                part == parts@[i as int],
                i > 0 ==> out@ == before + seq![sep] + part@.take(k as int),
                i == 0 ==> out@ == before + part@.take(k as int),
            decreases part.len() - k,
        {
            out.push(part[k]);
            proof {
                assert(part@.take((k + 1) as int) =~= part@.take(k as int).push(part@[k as int]));
            }
            k = k + 1;
        }
        proof {
            assert(part@.take(part.len() as int) =~= part@);
            let vs = views(parts@).take((i + 1) as int);
            assert(vs.drop_last() =~= views(parts@).take(i as int));
            assert(vs.last() == part@);
            if i == 0 {
                assert(before =~= Seq::<char>::empty());
                assert(out@ =~= part@);
                assert(vs.len() == 1);
                assert(vs[0] == part@);
            } else {
                assert(out@ =~= before + seq![sep] + part@);
            }
        }
        i = i + 1;
    }
    proof {
        assert(views(parts@).take(parts.len() as int) =~= views(parts@));
    }
    out
}

/// The texts of a sequence of strings.
pub open spec fn strings(v: Seq<String>) -> Seq<Seq<char>> {
    v.map_values(|s: String| s@)
}

/// The texts of a sequence of string groups.
pub open spec fn string_groups(v: Seq<Vec<String>>) -> Seq<Seq<Seq<char>>> {
    v.map_values(|g: Vec<String>| strings(g@))
}

/// The text of an optional string.
pub open spec fn opt_string(o: Option<String>) -> Option<Seq<char>> {
    match o {
        Some(s) => Some(s@),
        None => None,
    }
}

fn strings_of(v: &Vec<Vec<char>>) -> (out: Vec<String>)
    ensures
        strings(out@) == views(v@),
{
    let mut out: Vec<String> = Vec::new();
    let mut i: usize = 0;
    while i < v.len()
        invariant
            i <= v.len(),
            strings(out@) == views(v@).take(i as int),
        decreases v.len() - i,
    {
        let s = text::string_of(&v[i]);
        let ghost before = out@;
        out.push(s);
        proof {
            assert(strings(out@) =~= strings(before).push(s@));
            assert(views(v@).take((i + 1) as int) =~= views(v@).take(i as int).push(v@[i as int]@));
        }
        i = i + 1;
    }
    proof {
        assert(views(v@).take(v.len() as int) =~= views(v@));
    }
    out
}

fn string_of_opt(o: &Option<Vec<char>>) -> (out: Option<String>)
    ensures
        opt_string(out) == opt_chars(*o),
{
    match o {
        Some(v) => Some(text::string_of(v)),
        None => None,
    }
}

fn non_empty_string_groups(g: &Vec<Vec<Vec<char>>>) -> (out: Vec<Vec<String>>)
    ensures
        string_groups(out@) == non_empty_groups(group_views(g@)),
{
    let mut out: Vec<Vec<String>> = Vec::new();
    let mut i: usize = 0;
    while i < g.len()
        invariant
            i <= g.len(),
            string_groups(out@) == non_empty_groups(group_views(g@).take(i as int)),
        decreases g.len() - i,
    {
        let ghost gv = group_views(g@).take((i + 1) as int);
        proof {
            assert(gv.drop_last() =~= group_views(g@).take(i as int));
            assert(gv.last() == views(g@[i as int]@));
        }
        if g[i].len() > 0 {
            let grp = strings_of(&g[i]);
            let ghost before = out@;
            out.push(grp);
            proof {
                assert(string_groups(out@) =~= string_groups(before).push(strings(grp@)));
            }
        }
        i = i + 1;
    }
    proof {
        assert(group_views(g@).take(g.len() as int) =~= group_views(g@));
    }
    out
}

// ---------------------------------------------------------------------------
// The parsed query
// ---------------------------------------------------------------------------

/// A query split into its free text, its filters and its term groups.
#[derive(Debug, Clone, PartialEq, Eq)]
pub struct ParsedQuery {
    pub raw: String,
    pub free_text: String,
    pub mode_override: Option<SearchMode>,
    pub kind_filter: Option<String>,
    pub extension_filter: Option<String>,
    pub include_groups: Vec<Vec<String>>,
    pub exclude_terms: Vec<String>,
    pub modified_within: Option<TimeFilterWindow>,
    pub created_within: Option<TimeFilterWindow>,
    pub command_mode: bool,
}

impl ParsedQuery {
    /// `self` is what parsing `query` gives, with the query language on or off.
    /// An empty query, or any query with the language off, is all free text.
    pub open spec fn parsed_from(self, query: Seq<char>, dsl_enabled: bool) -> bool {
        let raw = text::trim(query);
        &&& self.raw@ == raw
        &&& if raw.len() == 0 || !dsl_enabled {
            &&& self.free_text@ == raw
            &&& self.mode_override is None
            &&& self.kind_filter is None
            &&& self.extension_filter is None
            &&& self.include_groups@.len() == 0
            &&& self.exclude_terms@.len() == 0
            &&& self.modified_within is None
            &&& self.created_within is None
            &&& !self.command_mode
        } else {
            let st = dsl_result(raw);
            &&& self.command_mode == is_command(raw)
            &&& self.mode_override == st.mode_override
            &&& opt_string(self.kind_filter) == st.kind_filter
            &&& opt_string(self.extension_filter) == st.extension_filter
            &&& string_groups(self.include_groups@) == non_empty_groups(st.groups)
            &&& strings(self.exclude_terms@) == st.exclude
            &&& self.modified_within == st.modified_within
            &&& self.created_within == st.created_within
            &&& self.free_text@ == join(st.free, " "@)
        }
    }

    pub fn parse(query: &str, dsl_enabled: bool) -> (parsed: Self)
        ensures
            parsed.parsed_from(query@, dsl_enabled),
    {
        let raw_v = text::trimmed_chars(query);
        let raw = text::string_of(&raw_v);
        if raw_v.len() == 0 || !dsl_enabled {
            return ParsedQuery {
                raw,
                free_text: text::string_of(&raw_v),
                mode_override: None,
                kind_filter: None,
                extension_filter: None,
                include_groups: Vec::new(),
                exclude_terms: Vec::new(),
                modified_within: None,
                created_within: None,
                command_mode: false,
            };
        }
        let command_mode = raw_v[0] == '>';
        let working = if command_mode {
            let rest = text::slice_vec(&raw_v, 1, raw_v.len());
            let i = text::skip_ws_forward(&rest, 0, rest.len());
            proof {
                assert(rest@ =~= raw_v@.drop_first());
                assert(rest@.subrange(0, rest.len() as int) =~= rest@);
            }
            text::slice_vec(&rest, i, rest.len())
        } else {
            proof {
                assert(raw_v@.subrange(0, raw_v.len() as int) =~= raw_v@);
            }
            text::slice_vec(&raw_v, 0, raw_v.len())
        };
        let tokens = tokenize_chars(&working);
        let mut acc = DslAcc::start(command_mode);
        let mut i: usize = 0;
        while i < tokens.len()
            invariant
                i <= tokens.len(),
                acc.state() == dsl_fold(dsl_start(command_mode), views(tokens@).take(i as int)),
            decreases tokens.len() - i,
        {
            acc.step(&tokens[i]);
            proof {
                let vs = views(tokens@).take((i + 1) as int);
                assert(vs.drop_last() =~= views(tokens@).take(i as int));
                assert(vs.last() == tokens@[i as int]@);
            }
            i = i + 1;
        }
        proof {
            assert(views(tokens@).take(tokens.len() as int) =~= views(tokens@));
        }
        let free = join_chars(&acc.free, ' ');
        proof {
            assert(seq![' '] =~= " "@) by {
                reveal_strlit(" ");
            }
        }
        ParsedQuery {
            raw,
            free_text: text::string_of(&free),
            mode_override: acc.mode_override,
            kind_filter: string_of_opt(&acc.kind_filter),
            extension_filter: string_of_opt(&acc.extension_filter),
            include_groups: non_empty_string_groups(&acc.groups),
            exclude_terms: strings_of(&acc.exclude),
            modified_within: acc.modified_within,
            created_within: acc.created_within,
            command_mode,
        }
    }
}

} // verus!
