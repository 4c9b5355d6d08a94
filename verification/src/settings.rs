//! Validation of the settings a user edits: the global hotkey and the result
//! count.
use vstd::prelude::*;

use crate::text;

verus! {

/// The fields of the settings dialog.
#[derive(Debug, Clone, PartialEq, Eq)]
pub struct SettingsDraft {
    pub hotkey: String,
    pub max_results: u16,
    pub launch_at_startup: bool,
}

// ---------------------------------------------------------------------------
// Splitting on a separator
// ---------------------------------------------------------------------------

/// `str::split` with a character separator: always at least one piece.
pub open spec fn split_on(s: Seq<char>, sep: char) -> Seq<Seq<char>>
    decreases s.len(),
{
    if s.len() == 0 {
        seq![Seq::empty()]
    } else {
        let prev = split_on(s.drop_last(), sep);
        if s.last() == sep {
            prev.push(Seq::empty())
        } else {
            prev.update(prev.len() - 1, prev.last().push(s.last()))
        }
    }
}

pub proof fn lemma_split_on_nonempty(s: Seq<char>, sep: char)
    ensures
        split_on(s, sep).len() >= 1,
    decreases s.len(),
{
    if s.len() > 0 {
        lemma_split_on_nonempty(s.drop_last(), sep);
    }
}

/// The pieces of `v` between the separators, in order.
pub fn split_chars(v: &Vec<char>, sep: char) -> (pieces: Vec<Vec<char>>)
    ensures
        crate::search::views(pieces@) == split_on(v@, sep),
{
    let mut pieces: Vec<Vec<char>> = Vec::new();
    let mut current: Vec<char> = Vec::new();
    let mut i: usize = 0;
    while i < v.len()
        invariant
            i <= v.len(),
            crate::search::views(pieces@).push(current@) == split_on(v@.take(i as int), sep),
        decreases v.len() - i,
    {
        let ch = v[i];
        let ghost before = crate::search::views(pieces@).push(current@);
        proof {
            assert(v@.take((i + 1) as int).drop_last() =~= v@.take(i as int));
        }
        if ch == sep {
            let ghost cur = current@;
            pieces.push(current);
            current = Vec::new();
            proof {
                assert(crate::search::views(pieces@) =~= before);
                assert(crate::search::views(pieces@).push(current@) =~= before.push(Seq::empty()));
            }
        } else {
            let ghost old_pieces = crate::search::views(pieces@);
            current.push(ch);
            proof {
                assert(old_pieces.push(current@) =~= before.update(before.len() - 1, before.last().push(ch)));
            }
        }
        i = i + 1;
    }
    proof {
        assert(v@.take(v.len() as int) =~= v@);
    }
    let ghost before = crate::search::views(pieces@).push(current@);
    pieces.push(current);
    proof {
        assert(crate::search::views(pieces@) =~= before);
    }
    pieces
}

// ---------------------------------------------------------------------------
// Hotkey parts
// ---------------------------------------------------------------------------

/// The trimmed, non-empty pieces of a hotkey between `+` signs.
pub open spec fn trimmed_nonempty(pieces: Seq<Seq<char>>) -> Seq<Seq<char>>
    decreases pieces.len(),
{
    if pieces.len() == 0 {
        Seq::empty()
    } else {
        let prev = trimmed_nonempty(pieces.drop_last());
        let t = text::trim(pieces.last());
        if t.len() > 0 {
            prev.push(t)
        } else {
            prev
        }
    }
}

pub open spec fn hotkey_parts(input: Seq<char>) -> Seq<Seq<char>> {
    trimmed_nonempty(split_on(input, '+'))
}

fn hotkey_parts_of(input: &str) -> (parts: Vec<Vec<char>>)
    ensures
        crate::search::views(parts@) == hotkey_parts(input@),
{
    let v = text::chars_of(input);
    let pieces = split_chars(&v, '+');
    let mut parts: Vec<Vec<char>> = Vec::new();
    let mut i: usize = 0;
    while i < pieces.len()
        invariant
            i <= pieces.len(),
            crate::search::views(pieces@) == split_on(v@, '+'),
            crate::search::views(parts@) == trimmed_nonempty(crate::search::views(pieces@).take(i as int)),
        decreases pieces.len() - i,
    {
        let t = text::trim_vec(&pieces[i]);
        proof {
            let ps = crate::search::views(pieces@).take((i + 1) as int);
            assert(ps.drop_last() =~= crate::search::views(pieces@).take(i as int));
            assert(ps.last() == pieces@[i as int]@);
        }
        if t.len() > 0 {
            let ghost before = parts@;
            parts.push(t);
            proof {
                assert(crate::search::views(parts@) =~= crate::search::views(before).push(t@));
            }
        }
        i = i + 1;
    }
    proof {
        assert(crate::search::views(pieces@).take(pieces.len() as int) =~= crate::search::views(pieces@));
    }
    parts
}

// ---------------------------------------------------------------------------
// Modifiers
// ---------------------------------------------------------------------------

/// The canonical modifier a hotkey part names, or why it is refused.
pub open spec fn modifier_of(part: Seq<char>) -> Result<Seq<char>, Seq<char>> {
    let n = text::ascii_lower(part);
    if n == "ctrl"@ || n == "control"@ {
        Ok("Ctrl"@)
    } else if n == "alt"@ {
        Ok("Alt"@)
    } else if n == "shift"@ {
        Ok("Shift"@)
    } else if n == "win"@ || n == "windows"@ || n == "meta"@ {
        Err("Win/Meta combinations are not supported."@)
    } else {
        Err("Unsupported modifier '"@ + part + "'. Use Ctrl, Alt, or Shift."@)
    }
}

fn normalize_modifier(part: &Vec<char>) -> (r: Result<&'static str, String>)
    ensures
        match r {
            Ok(m) => modifier_of(part@) == Ok::<Seq<char>, Seq<char>>(m@),
            Err(e) => modifier_of(part@) == Err::<Seq<char>, Seq<char>>(e@),
        },
{
    let n = text::lower_vec(part);
    if text::vec_eq_str(&n, "ctrl") || text::vec_eq_str(&n, "control") {
        Ok("Ctrl")
    } else if text::vec_eq_str(&n, "alt") {
        Ok("Alt")
    } else if text::vec_eq_str(&n, "shift") {
        Ok("Shift")
    } else if text::vec_eq_str(&n, "win") || text::vec_eq_str(&n, "windows") || text::vec_eq_str(
        &n,
        "meta",
    ) {
        Err(text::owned("Win/Meta combinations are not supported."))
    } else {
        let mut msg = text::owned("Unsupported modifier '");
        let p = text::string_of(part);
        text::push_str(&mut msg, p.as_str());
        text::push_str(&mut msg, "'. Use Ctrl, Alt, or Shift.");
        Err(msg)
    }
}

/// The error of the first refused modifier among `mods`, if any.
pub open spec fn first_modifier_error(mods: Seq<Seq<char>>) -> Option<Seq<char>>
    decreases mods.len(),
{
    if mods.len() == 0 {
        None
    } else if first_modifier_error(mods.drop_last()) is Some {
        first_modifier_error(mods.drop_last())
    } else if modifier_of(mods.last()) is Err {
        Some(modifier_of(mods.last())->Err_0)
    } else {
        None
    }
}

/// Some part among `mods` names the modifier `m`.
pub open spec fn names_modifier(mods: Seq<Seq<char>>, m: Seq<char>) -> bool {
    exists|i: int| 0 <= i < mods.len() && modifier_of(#[trigger] mods[i]) == Ok::<Seq<char>, Seq<char>>(m)
}

// ---------------------------------------------------------------------------
// Keys
// ---------------------------------------------------------------------------

pub open spec fn is_ascii_digit(c: char) -> bool {
    '0' <= c && c <= '9'
}

pub open spec fn is_ascii_alnum(c: char) -> bool {
    is_ascii_digit(c) || ('A' <= c && c <= 'Z') || ('a' <= c && c <= 'z')
}

/// The value of a string of decimal digits.
pub open spec fn digits_value(s: Seq<char>) -> int
    decreases s.len(),
{
    if s.len() == 0 {
        0
    } else {
        digits_value(s.drop_last()) * 10 + (s.last() as int - '0' as int)
    }
}

pub open spec fn all_digits(s: Seq<char>) -> bool {
    forall|i: int| 0 <= i < s.len() ==> is_ascii_digit(#[trigger] s[i])
}

/// The decimal text of `n`.
pub open spec fn decimal(n: nat) -> Seq<char>
    decreases n,
{
    if n < 10 {
        seq![(n + '0' as nat) as char]
    } else {
        decimal(n / 10).push(((n % 10) + '0' as nat) as char)
    }
}

/// The canonical key a hotkey's last part names, or why it is refused.
pub open spec fn key_of(part: Seq<char>) -> Result<Seq<char>, Seq<char>> {
    let raw = text::trim(part);
    let upper = text::ascii_upper(raw);
    if raw.len() == 0 {
        Err("Hotkey key is required."@)
    } else if upper == "SPACE"@ {
        Ok("Space"@)
    } else if upper[0] == 'F' {
        let number = upper.drop_first();
        if number.len() > 0 && all_digits(number) && 1 <= digits_value(number) <= 24 {
            Ok(seq!['F'] + decimal(digits_value(number) as nat))
        } else {
            Err("Function key must be between F1 and F24."@)
        }
    } else if upper.len() == 1 && is_ascii_alnum(upper[0]) {
        Ok(upper)
    } else {
        Err("Key must be A-Z, 0-9, Space, or F1-F24."@)
    }
}

pub proof fn lemma_digits_value_nonneg(s: Seq<char>)
    requires
        all_digits(s),
    ensures
        digits_value(s) >= 0,
    decreases s.len(),
{
    if s.len() > 0 {
        lemma_digits_value_nonneg(s.drop_last());
        assert(is_ascii_digit(s[s.len() - 1]));
    }
}

proof fn lemma_digits_value_grows(s: Seq<char>)
    requires
        all_digits(s),
        s.len() > 0,
    ensures
        digits_value(s) >= digits_value(s.drop_last()) * 10,
{
    assert(is_ascii_digit(s[s.len() - 1]));
}

/// `str::parse::<u8>` of a string without sign: `None` unless it is all decimal
/// digits, non-empty, with a value below 256.
fn parse_u8_digits(s: &Vec<char>) -> (r: Option<u8>)
    ensures
        match r {
            Some(n) => s@.len() > 0 && all_digits(s@) && n == digits_value(s@),
            None => !(s@.len() > 0 && all_digits(s@) && digits_value(s@) <= 255),
        },
{
    if s.len() == 0 {
        return None;
    }
    let mut value: u32 = 0;
    let mut i: usize = 0;
    while i < s.len()
        invariant
            i <= s.len(),
            all_digits(s@.take(i as int)),
            value == digits_value(s@.take(i as int)),
            value <= 255,
        decreases s.len() - i,
    {
        let c = s[i];
        proof {
            assert(s@.take((i + 1) as int).drop_last() =~= s@.take(i as int));
        }
        if !('0' <= c && c <= '9') {
            proof {
                assert(!is_ascii_digit(s@[i as int]));
            }
            return None;
        }
        let d = (c as u32) - ('0' as u32);
        let next = value * 10 + d;
        proof {
            assert(forall|k: int| 0 <= k < i + 1 ==> #[trigger] s@.take((i + 1) as int)[k] == s@[k]);
            assert(all_digits(s@.take((i + 1) as int)));
        }
        if next > 255 {
            proof {
                // every longer prefix keeps at least this value
                lemma_prefix_value_grows(s@, (i + 1) as int);
            }
            return None;
        }
        value = next;
        i = i + 1;
    }
    proof {
        assert(s@.take(s.len() as int) =~= s@);
    }
    Some(value as u8)
}

pub proof fn lemma_prefix_value_grows(s: Seq<char>, k: int)
    requires
        0 <= k <= s.len(),
        all_digits(s.take(k)),
    ensures
        all_digits(s) ==> digits_value(s) >= digits_value(s.take(k)),
    decreases s.len() - k,
{
    if k < s.len() && all_digits(s) {
        assert(forall|m: int| 0 <= m < k + 1 ==> #[trigger] s.take(k + 1)[m] == s[m]);
        lemma_prefix_value_grows(s, k + 1);
        assert(s.take(k + 1).drop_last() =~= s.take(k));
        lemma_digits_value_nonneg(s.take(k));
        lemma_digits_value_grows(s.take(k + 1));
    } else if k == s.len() {
        assert(s.take(k) =~= s);
    }
}

/// The decimal text of `n` (`to_string` on an unsigned integer).
pub fn decimal_u64(n: u64) -> (out: Vec<char>)
    ensures
        out@ == decimal(n as nat),
    decreases n,
{
    if n < 10 {
        let mut out: Vec<char> = Vec::new();
        out.push(char_digit(n as u8));
        proof {
            assert(out@ =~= decimal(n as nat));
        }
        out
    } else {
        let mut out = decimal_u64(n / 10);
        out.push(char_digit((n % 10) as u8));
        out
    }
}

/// The decimal text of a small number.
fn decimal_chars(n: u8) -> (out: Vec<char>)
    ensures
        out@ == decimal(n as nat),
{
    let mut out: Vec<char> = Vec::new();
    if n >= 100 {
        out.push(char_digit(n / 100));
        out.push(char_digit((n / 10) % 10));
        out.push(char_digit(n % 10));
        proof {
            let m = n as nat;
            assert(decimal(m / 10) == decimal(m / 100).push(((m / 10) % 10 + '0' as nat) as char));
            assert(decimal(m / 100) == seq![((m / 100) + '0' as nat) as char]);
        }
    } else if n >= 10 {
        out.push(char_digit(n / 10));
        out.push(char_digit(n % 10));
        proof {
            let m = n as nat;
            assert(decimal(m / 10) == seq![((m / 10) + '0' as nat) as char]);
        }
    } else {
        out.push(char_digit(n));
    }
    proof {
        assert(out@ =~= decimal(n as nat));
    }
    out
}

pub(crate) fn char_digit(d: u8) -> (c: char)
    requires
        d < 10,
    ensures
        c == (d + '0' as nat) as char,
{
    if d == 0 { '0' }
    else if d == 1 { '1' }
    else if d == 2 { '2' }
    else if d == 3 { '3' }
    else if d == 4 { '4' }
    else if d == 5 { '5' }
    else if d == 6 { '6' }
    else if d == 7 { '7' }
    else if d == 8 { '8' }
    else { '9' }
}

fn normalize_key(part: &Vec<char>) -> (r: Result<String, String>)
    ensures
        match r {
            Ok(k) => key_of(part@) == Ok::<Seq<char>, Seq<char>>(k@),
            Err(e) => key_of(part@) == Err::<Seq<char>, Seq<char>>(e@),
        },
{
    let raw = text::trim_vec(part);
    if raw.len() == 0 {
        return Err(text::owned("Hotkey key is required."));
    }
    let upper = text::upper_vec(&raw);
    if text::vec_eq_str(&upper, "SPACE") {
        return Ok(text::owned("Space"));
    }
    if upper[0] == 'F' {
        let number = text::slice_vec(&upper, 1, upper.len());
        proof {
            assert(number@ =~= upper@.drop_first());
        }
        match parse_u8_digits(&number) {
            Some(parsed) => {
                if 1 <= parsed && parsed <= 24 {
                    let mut key: Vec<char> = Vec::new();
                    key.push('F');
                    let digits = decimal_chars(parsed);
                    let mut k: usize = 0;
                    while k < digits.len()
                        invariant
                            k <= digits.len(),
                            key@ == seq!['F'] + digits@.take(k as int),
                        decreases digits.len() - k,
                    {
                        key.push(digits[k]);
                        proof {
                            assert(digits@.take((k + 1) as int) =~= digits@.take(k as int).push(digits@[k as int]));
                        }
                        k = k + 1;
                    }
                    proof {
                        assert(digits@.take(digits.len() as int) =~= digits@);
                    }
                    return Ok(text::string_of(&key));
                }
            },
            None => {},
        }
        return Err(text::owned("Function key must be between F1 and F24."));
    }
    if upper.len() == 1 {
        let c = upper[0];
        if ('0' <= c && c <= '9') || ('A' <= c && c <= 'Z') || ('a' <= c && c <= 'z') {
            return Ok(text::string_of(&upper));
        }
    }
    Err(text::owned("Key must be A-Z, 0-9, Space, or F1-F24."))
}

// ---------------------------------------------------------------------------
// The whole hotkey
// ---------------------------------------------------------------------------

/// Modifiers in the fixed order Ctrl, Alt, Shift, then the key, joined by `+`.
pub open spec fn canonical_hotkey_text(ctrl: bool, alt: bool, shift: bool, key: Seq<char>) -> Seq<char> {
    (if ctrl { "Ctrl+"@ } else { Seq::empty() }) + (if alt { "Alt+"@ } else { Seq::empty() }) + (
    if shift { "Shift+"@ } else { Seq::empty() }) + key
}

/// Shortcuts that Windows keeps for itself.
pub open spec fn reserved_hotkey(c: Seq<char>) -> bool {
    c == "Alt+Tab"@ || c == "Alt+F4"@ || c == "Ctrl+Esc"@ || c == "Alt+Esc"@ || c
        == "Ctrl+Shift+Esc"@ || c == "Alt+Space"@
}

/// What `validate_hotkey` answers for `input`: the canonical hotkey, or the
/// reason it is refused. The key is checked before the modifiers, and the
/// first refused modifier decides the error.
pub open spec fn hotkey_validation(input: Seq<char>) -> Result<Seq<char>, Seq<char>> {
    let parts = hotkey_parts(input);
    let mods = parts.drop_last();
    if parts.len() < 2 {
        Err("Hotkey must include at least one modifier and one key."@)
    } else if key_of(parts.last()) is Err {
        key_of(parts.last())
    } else if first_modifier_error(mods) is Some {
        Err(first_modifier_error(mods)->0)
    } else {
        let ctrl = names_modifier(mods, "Ctrl"@);
        let alt = names_modifier(mods, "Alt"@);
        let shift = names_modifier(mods, "Shift"@);
        let c = canonical_hotkey_text(ctrl, alt, shift, key_of(parts.last())->Ok_0);
        if !(ctrl || alt || shift) {
            Err("Hotkey must include at least one modifier."@)
        } else if reserved_hotkey(c) {
            Err("This hotkey is commonly reserved by Windows. Choose a different one."@)
        } else {
            Ok(c)
        }
    }
}

fn is_reserved_hotkey(c: &Vec<char>) -> (r: bool)
    ensures
        r == reserved_hotkey(c@),
{
    text::vec_eq_str(c, "Alt+Tab") || text::vec_eq_str(c, "Alt+F4") || text::vec_eq_str(
        c,
        "Ctrl+Esc",
    ) || text::vec_eq_str(c, "Alt+Esc") || text::vec_eq_str(c, "Ctrl+Shift+Esc")
        || text::vec_eq_str(c, "Alt+Space")
}

fn canonical_hotkey(ctrl: bool, alt: bool, shift: bool, key: &str) -> (out: Vec<char>)
    ensures
        out@ == canonical_hotkey_text(ctrl, alt, shift, key@),
{
    let mut s = String::new();
    if ctrl {
        text::push_str(&mut s, "Ctrl+");
    }
    if alt {
        text::push_str(&mut s, "Alt+");
    }
    if shift {
        text::push_str(&mut s, "Shift+");
    }
    text::push_str(&mut s, key);
    proof {
        assert(s@ =~= canonical_hotkey_text(ctrl, alt, shift, key@));
    }
    text::chars_of(s.as_str())
}

/// Checks a hotkey such as `ctrl + shift + p` and gives its canonical form
/// (`Ctrl+Shift+P`), or the reason it is refused.
pub fn validate_hotkey(input: &str) -> (r: Result<String, String>)
    ensures
        match r {
            Ok(c) => hotkey_validation(input@) == Ok::<Seq<char>, Seq<char>>(c@),
            Err(e) => hotkey_validation(input@) == Err::<Seq<char>, Seq<char>>(e@),
        },
{
    let parts = hotkey_parts_of(input);
    let ghost pv = crate::search::views(parts@);
    if parts.len() < 2 {
        return Err(text::owned("Hotkey must include at least one modifier and one key."));
    }
    let last = parts.len() - 1;
    proof {
        assert(pv.last() == parts@[last as int]@);
    }
    let key = match normalize_key(&parts[last]) {
        Ok(k) => k,
        Err(e) => {
            return Err(e);
        },
    };
    let ghost mods = pv.drop_last();
    let mut ctrl = false;
    let mut alt = false;
    let mut shift = false;
    let mut i: usize = 0;
    while i < last
        invariant
            i <= last,
            last == parts.len() - 1,
            parts.len() >= 2,
            pv == hotkey_parts(input@),
            key_of(pv.last()) == Ok::<Seq<char>, Seq<char>>(key@),
            pv == crate::search::views(parts@),
            mods == pv.drop_last(),
            first_modifier_error(mods.take(i as int)) is None,
            ctrl == names_modifier(mods.take(i as int), "Ctrl"@),
            alt == names_modifier(mods.take(i as int), "Alt"@),
            shift == names_modifier(mods.take(i as int), "Shift"@),
        decreases last - i,
    {
        let ghost prefix = mods.take((i + 1) as int);
        proof {
            assert(prefix.drop_last() =~= mods.take(i as int));
            assert(prefix.last() == parts@[i as int]@);
        }
        match normalize_modifier(&parts[i]) {
            Ok(m) => {
                proof {
                    assert(prefix =~= mods.take(i as int).push(parts@[i as int]@));
                    lemma_names_modifier_push(mods.take(i as int), parts@[i as int]@, "Ctrl"@);
                    lemma_names_modifier_push(mods.take(i as int), parts@[i as int]@, "Alt"@);
                    lemma_names_modifier_push(mods.take(i as int), parts@[i as int]@, "Shift"@);
                }
                proof {
                    reveal_strlit("Ctrl");
                    reveal_strlit("Alt");
                    reveal_strlit("Shift");
                    assert("Ctrl"@.len() == 4 && "Alt"@.len() == 3 && "Shift"@.len() == 5);
                    assert("Ctrl"@ != "Alt"@ && "Ctrl"@ != "Shift"@ && "Alt"@ != "Shift"@);
                }
                if text::str_eq(m, "Ctrl") {
                    ctrl = true;
                } else if text::str_eq(m, "Alt") {
                    alt = true;
                } else if text::str_eq(m, "Shift") {
                    shift = true;
                }
            },
            Err(e) => {
                proof {
                    assert(prefix =~= mods.take(i as int).push(parts@[i as int]@));
                    assert(modifier_of(prefix.last()) == Err::<Seq<char>, Seq<char>>(e@));
                    assert(first_modifier_error(prefix) == Some(e@));
                    lemma_first_error_extends(mods, (i + 1) as int);
                }
                return Err(e);
            },
        }
        i = i + 1;
    }
    proof {
        assert(mods.take(last as int) =~= mods);
    }
    if !(ctrl || alt || shift) {
        return Err(text::owned("Hotkey must include at least one modifier."));
    }
    let canonical = canonical_hotkey(ctrl, alt, shift, key.as_str());
    if is_reserved_hotkey(&canonical) {
        return Err(text::owned("This hotkey is commonly reserved by Windows. Choose a different one."));
    }
    Ok(text::string_of(&canonical))
}

proof fn lemma_names_modifier_push(s: Seq<Seq<char>>, x: Seq<char>, name: Seq<char>)
    ensures
        names_modifier(s.push(x), name) == (names_modifier(s, name) || modifier_of(x) == Ok::<
            Seq<char>,
            Seq<char>,
        >(name)),
{
    let t = s.push(x);
    if names_modifier(t, name) {
        let w = choose|w: int| 0 <= w < t.len() && modifier_of(#[trigger] t[w]) == Ok::<Seq<char>, Seq<char>>(name);
        if w < s.len() {
            assert(s[w] == t[w]);
        }
    }
    if names_modifier(s, name) {
        let w = choose|w: int| 0 <= w < s.len() && modifier_of(#[trigger] s[w]) == Ok::<Seq<char>, Seq<char>>(name);
        assert(t[w] == s[w]);
    }
    if modifier_of(x) == Ok::<Seq<char>, Seq<char>>(name) {
        assert(t[s.len() as int] == x);
    }
}

proof fn lemma_first_error_extends(mods: Seq<Seq<char>>, k: int)
    requires
        0 <= k <= mods.len(),
        first_modifier_error(mods.take(k)) is Some,
    ensures
        first_modifier_error(mods) == first_modifier_error(mods.take(k)),
    decreases mods.len() - k,
{
    if k < mods.len() {
        assert(mods.take(k + 1).drop_last() =~= mods.take(k));
        lemma_first_error_extends(mods, k + 1);
    } else {
        assert(mods.take(k) =~= mods);
    }
}

// ---------------------------------------------------------------------------
// The canonical form validates to itself
// ---------------------------------------------------------------------------

proof fn lemma_split_concat(a: Seq<char>, b: Seq<char>, sep: char)
    ensures
        split_on(a.push(sep) + b, sep) == split_on(a, sep) + split_on(b, sep),
    decreases b.len(),
{
    let s = a.push(sep) + b;
    lemma_split_on_nonempty(a, sep);
    if b.len() == 0 {
        assert(s =~= a.push(sep));
        assert(s.drop_last() =~= a);
        assert(split_on(s, sep) =~= split_on(a, sep) + split_on(b, sep));
    } else {
        let bd = b.drop_last();
        lemma_split_concat(a, bd, sep);
        assert(s.drop_last() =~= a.push(sep) + bd);
        assert(s.last() == b.last());
        lemma_split_on_nonempty(bd, sep);
        let p = split_on(a, sep);
        let q = split_on(bd, sep);
        let pq = p + q;
        if b.last() == sep {
            assert(pq.push(Seq::<char>::empty()) =~= p + q.push(Seq::<char>::empty()));
        } else {
            assert(pq.last() == q.last());
            assert(pq.update(pq.len() - 1, pq.last().push(b.last())) =~= p + q.update(
                q.len() - 1,
                q.last().push(b.last()),
            ));
        }
    }
}

proof fn lemma_split_plain(m: Seq<char>, sep: char)
    requires
        forall|i: int| 0 <= i < m.len() ==> m[i] != sep,
    ensures
        split_on(m, sep) == seq![m],
    decreases m.len(),
{
    if m.len() == 0 {
        assert(seq![m] =~= seq![Seq::<char>::empty()]) by {
            assert(m =~= Seq::<char>::empty());
        }
    } else {
        let d = m.drop_last();
        lemma_split_plain(d, sep);
        assert(m.last() == m[m.len() - 1]);
        assert(d.push(m.last()) =~= m);
        assert(split_on(m, sep) =~= seq![m]);
    }
}

/// Splitting `name+rest` on `+` gives `name`, then the pieces of `rest`
/// (nothing is split off when `flag` is unset).
proof fn lemma_split_step(flag: bool, name: Seq<char>, rest: Seq<char>)
    requires
        forall|i: int| 0 <= i < name.len() ==> name[i] != '+',
    ensures
        split_on((if flag { name + seq!['+'] } else { Seq::empty() }) + rest, '+') == (if flag {
            seq![name]
        } else {
            Seq::empty()
        }) + split_on(rest, '+'),
{
    if flag {
        lemma_split_plain(name, '+');
        lemma_split_concat(name, rest, '+');
        assert(name + seq!['+'] + rest =~= name.push('+') + rest);
    } else {
        assert(Seq::<char>::empty() + rest =~= rest);
        assert(Seq::<Seq<char>>::empty() + split_on(rest, '+') =~= split_on(rest, '+'));
    }
}

proof fn lemma_trim_plain(x: Seq<char>)
    requires
        x.len() > 0,
        !text::is_ws(x[0]),
        !text::is_ws(x.last()),
    ensures
        text::trim(x) == x,
{
}

proof fn lemma_trimmed_plain(p: Seq<Seq<char>>)
    requires
        forall|i: int| 0 <= i < p.len() ==> (#[trigger] p[i]).len() > 0 && text::trim(p[i]) == p[i],
    ensures
        trimmed_nonempty(p) == p,
    decreases p.len(),
{
    if p.len() > 0 {
        let d = p.drop_last();
        assert forall|i: int| 0 <= i < d.len() implies (#[trigger] d[i]).len() > 0 && text::trim(d[i]) == d[i] by {
            assert(d[i] == p[i]);
        }
        lemma_trimmed_plain(d);
        assert(p.last() == p[p.len() - 1]);
        assert(d.push(p.last()) =~= p);
    } else {
        assert(p =~= Seq::<Seq<char>>::empty());
    }
}

proof fn lemma_decimal_digits(n: nat)
    ensures
        decimal(n).len() > 0,
        all_digits(decimal(n)),
        digits_value(decimal(n)) == n,
    decreases n,
{
    if n < 10 {
        let c = (n + '0' as nat) as char;
        assert(decimal(n) == seq![c]);
        assert(seq![c].drop_last() =~= Seq::<char>::empty());
        assert(c as int == n + 48);
        assert(digits_value(seq![c]) == digits_value(Seq::<char>::empty()) * 10 + (c as int - '0' as int));
    } else {
        lemma_decimal_digits(n / 10);
        let d = decimal(n / 10);
        let c = ((n % 10) + '0' as nat) as char;
        let e = d.push(c);
        assert(decimal(n) == e);
        assert(e.drop_last() =~= d);
        assert(c as int == n % 10 + 48);
        assert forall|i: int| 0 <= i < e.len() implies is_ascii_digit(#[trigger] e[i]) by {
            if i < d.len() {
                assert(e[i] == d[i]);
            }
        }
        assert(digits_value(e) == digits_value(d) * 10 + (c as int - '0' as int));
        assert(n == (n / 10) * 10 + n % 10) by (nonlinear_arith);
    }
}

/// A key that `key_of` accepts is its own canonical key, and it holds no `+`
/// and no surrounding whitespace.
pub(crate) proof fn lemma_key_canonical(part: Seq<char>)
    requires
        key_of(part) is Ok,
    ensures
        key_of(key_of(part)->Ok_0) == key_of(part),
        key_of(part)->Ok_0.len() > 0,
        forall|i: int| 0 <= i < key_of(part)->Ok_0.len() ==> #[trigger] key_of(part)->Ok_0[i] != '+',
        !text::is_ws(key_of(part)->Ok_0[0]),
        !text::is_ws(key_of(part)->Ok_0.last()),
{
    reveal_strlit("SPACE");
    reveal_strlit("Space");
    let raw = text::trim(part);
    let upper = text::ascii_upper(raw);
    let k = key_of(part)->Ok_0;
    if upper == "SPACE"@ {
        assert(k == "Space"@);
        lemma_trim_plain(k);
        assert(text::ascii_upper(k) =~= "SPACE"@);
    } else if upper[0] == 'F' {
        let number = upper.drop_first();
        let v = digits_value(number);
        lemma_decimal_digits(v as nat);
        let dd = decimal(v as nat);
        assert(k == seq!['F'] + dd);
        assert(k[0] == 'F');
        assert(k.last() == dd[dd.len() - 1]);
        assert(is_ascii_digit(dd[dd.len() - 1]));
        assert forall|i: int| 0 <= i < k.len() implies #[trigger] k[i] != '+' by {
            if i > 0 {
                assert(k[i] == dd[i - 1]);
                assert(is_ascii_digit(dd[i - 1]));
            }
        }
        lemma_trim_plain(k);
        assert forall|i: int| 0 <= i < k.len() implies text::ascii_upper_char(#[trigger] k[i]) == k[i] by {
            if i > 0 {
                assert(k[i] == dd[i - 1]);
                assert(is_ascii_digit(dd[i - 1]));
            }
        }
        assert(text::ascii_upper(k) =~= k);
        assert(k != "SPACE"@) by {
            assert("SPACE"@[0] == 'S');
        }
        assert(k.drop_first() =~= dd);
    } else {
        assert(k == upper && upper.len() == 1 && is_ascii_alnum(upper[0]));
        assert(upper[0] == text::ascii_upper_char(raw[0]));
        assert(text::ascii_upper_char(k[0]) == k[0]);
        lemma_trim_plain(k);
        assert(text::ascii_upper(k) =~= k);
        assert(k != "SPACE"@);
    }
}

proof fn lemma_no_modifier_error(mods: Seq<Seq<char>>)
    requires
        forall|i: int| 0 <= i < mods.len() ==> modifier_of(#[trigger] mods[i]) is Ok,
    ensures
        first_modifier_error(mods) is None,
    decreases mods.len(),
{
    if mods.len() > 0 {
        let d = mods.drop_last();
        assert forall|i: int| 0 <= i < d.len() implies modifier_of(#[trigger] d[i]) is Ok by {
            assert(d[i] == mods[i]);
        }
        lemma_no_modifier_error(d);
        assert(modifier_of(mods[mods.len() - 1]) is Ok);
    }
}

/// The modifier names of a canonical hotkey, in their fixed order.
pub open spec fn modifier_names(ctrl: bool, alt: bool, shift: bool) -> Seq<Seq<char>> {
    (if ctrl {
        seq!["Ctrl"@]
    } else {
        Seq::empty()
    }) + ((if alt {
        seq!["Alt"@]
    } else {
        Seq::empty()
    }) + (if shift {
        seq!["Shift"@]
    } else {
        Seq::empty()
    }))
}

/// A canonical hotkey splits on `+` into its modifier names and its key.
pub(crate) proof fn lemma_canonical_split(ctrl: bool, alt: bool, shift: bool, key: Seq<char>)
    requires
        forall|i: int| 0 <= i < key.len() ==> #[trigger] key[i] != '+',
    ensures
        split_on(canonical_hotkey_text(ctrl, alt, shift, key), '+') == modifier_names(ctrl, alt, shift).push(key),
{
    reveal_strlit("Ctrl");
    reveal_strlit("Alt");
    reveal_strlit("Shift");
    reveal_strlit("Ctrl+");
    reveal_strlit("Alt+");
    reveal_strlit("Shift+");
    let c = canonical_hotkey_text(ctrl, alt, shift, key);
    let x = if ctrl { "Ctrl"@ + seq!['+'] } else { Seq::<char>::empty() };
    let y = if alt { "Alt"@ + seq!['+'] } else { Seq::<char>::empty() };
    let z = if shift { "Shift"@ + seq!['+'] } else { Seq::<char>::empty() };
    assert("Ctrl+"@ =~= "Ctrl"@ + seq!['+']);
    assert("Alt+"@ =~= "Alt"@ + seq!['+']);
    assert("Shift+"@ =~= "Shift"@ + seq!['+']);
    assert(c =~= x + (y + (z + key)));
    let cm = if ctrl { seq!["Ctrl"@] } else { Seq::<Seq<char>>::empty() };
    let am = if alt { seq!["Alt"@] } else { Seq::<Seq<char>>::empty() };
    let sm = if shift { seq!["Shift"@] } else { Seq::<Seq<char>>::empty() };
    lemma_split_plain(key, '+');
    lemma_split_step(shift, "Shift"@, key);
    lemma_split_step(alt, "Alt"@, z + key);
    lemma_split_step(ctrl, "Ctrl"@, y + (z + key));
    let m = cm + (am + sm);
    assert(m =~= modifier_names(ctrl, alt, shift));
    assert(split_on(c, '+') =~= m.push(key));
}

/// A hotkey in canonical form validates to itself: validating the answer of
/// `validate_hotkey` gives the same answer.
pub proof fn law_canonical_hotkey_is_fixed_point(input: Seq<char>)
    requires
        hotkey_validation(input) is Ok,
    ensures
        hotkey_validation(hotkey_validation(input)->Ok_0) == hotkey_validation(input),
{
    reveal_strlit("Ctrl");
    reveal_strlit("Alt");
    reveal_strlit("Shift");
    reveal_strlit("Ctrl+");
    reveal_strlit("Alt+");
    reveal_strlit("Shift+");
    reveal_strlit("ctrl");
    reveal_strlit("alt");
    reveal_strlit("shift");
    reveal_strlit("control");
    let parts = hotkey_parts(input);
    let mods = parts.drop_last();
    let key = key_of(parts.last())->Ok_0;
    let ctrl = names_modifier(mods, "Ctrl"@);
    let alt = names_modifier(mods, "Alt"@);
    let shift = names_modifier(mods, "Shift"@);
    let c = canonical_hotkey_text(ctrl, alt, shift, key);
    assert(hotkey_validation(input) == Ok::<Seq<char>, Seq<char>>(c));
    lemma_key_canonical(parts.last());
    // the pieces of the canonical text
    lemma_canonical_split(ctrl, alt, shift, key);
    let cm = if ctrl { seq!["Ctrl"@] } else { Seq::<Seq<char>>::empty() };
    let am = if alt { seq!["Alt"@] } else { Seq::<Seq<char>>::empty() };
    let sm = if shift { seq!["Shift"@] } else { Seq::<Seq<char>>::empty() };
    let m = cm + (am + sm);
    let pieces = m.push(key);
    assert(split_on(c, '+') =~= pieces);
    // every piece is already trimmed and non-empty
    assert forall|i: int| 0 <= i < m.len() implies (#[trigger] m[i] == "Ctrl"@ && ctrl) || (m[i] == "Alt"@ && alt)
        || (m[i] == "Shift"@ && shift) by {
        if ctrl && i == 0 {
        } else {
            let j = if ctrl { i - 1 } else { i };
            assert(m[i] == (am + sm)[j]);
            if alt && j == 0 {
            } else {
                let l = if alt { j - 1 } else { j };
                assert((am + sm)[j] == sm[l]);
            }
        }
    }
    assert forall|i: int| 0 <= i < pieces.len() implies (#[trigger] pieces[i]).len() > 0 && text::trim(pieces[i])
        == pieces[i] by {
        if i < m.len() {
            assert(pieces[i] == m[i]);
            lemma_trim_plain(m[i]);
        } else {
            assert(pieces[i] == key);
            lemma_trim_plain(key);
        }
    }
    lemma_trimmed_plain(pieces);
    assert(hotkey_parts(c) == pieces);
    assert(pieces.drop_last() =~= m);
    assert(pieces.last() == key);
    assert(m.len() >= 1);
    // the modifiers name exactly the flags that were set
    assert(modifier_of("Ctrl"@) == Ok::<Seq<char>, Seq<char>>("Ctrl"@)) by {
        assert(text::ascii_lower("Ctrl"@) =~= "ctrl"@);
    }
    assert(modifier_of("Alt"@) == Ok::<Seq<char>, Seq<char>>("Alt"@)) by {
        assert(text::ascii_lower("Alt"@) =~= "alt"@);
        assert(text::ascii_lower("Alt"@) != "ctrl"@ && text::ascii_lower("Alt"@) != "control"@);
    }
    assert(modifier_of("Shift"@) == Ok::<Seq<char>, Seq<char>>("Shift"@)) by {
        assert(text::ascii_lower("Shift"@) =~= "shift"@);
        assert(text::ascii_lower("Shift"@) != "ctrl"@ && text::ascii_lower("Shift"@) != "control"@);
        assert(text::ascii_lower("Shift"@) != "alt"@);
    }
    assert("Ctrl"@ != "Alt"@ && "Ctrl"@ != "Shift"@ && "Alt"@ != "Shift"@);
    assert forall|i: int| 0 <= i < m.len() implies modifier_of(#[trigger] m[i]) is Ok by {}
    lemma_no_modifier_error(m);
    assert(names_modifier(m, "Ctrl"@) == ctrl) by {
        if ctrl {
            assert(m[0] == "Ctrl"@);
        } else {
            assert forall|i: int| 0 <= i < m.len() implies modifier_of(#[trigger] m[i]) != Ok::<Seq<char>, Seq<char>>(
                "Ctrl"@,
            ) by {}
        }
    }
    assert(names_modifier(m, "Alt"@) == alt) by {
        if alt {
            let w = if ctrl { 1int } else { 0int };
            assert(m[w] == "Alt"@);
        } else {
            assert forall|i: int| 0 <= i < m.len() implies modifier_of(#[trigger] m[i]) != Ok::<Seq<char>, Seq<char>>(
                "Alt"@,
            ) by {}
        }
    }
    assert(names_modifier(m, "Shift"@) == shift) by {
        if shift {
            let w = m.len() - 1;
            assert(m[w] == "Shift"@);
        } else {
            assert forall|i: int| 0 <= i < m.len() implies modifier_of(#[trigger] m[i]) != Ok::<Seq<char>, Seq<char>>(
                "Shift"@,
            ) by {}
        }
    }
}

/// Whether a result count is accepted: from 5 to 100.
pub fn validate_max_results(value: u16) -> (r: Result<(), String>)
    ensures
        r is Ok <==> 5 <= value <= 100,
        r matches Err(e) ==> e@ == "Max results must be between 5 and 100."@,
{
    if 5 <= value && value <= 100 {
        Ok(())
    } else {
        Err(text::owned("Max results must be between 5 and 100."))
    }
}

} // verus!
