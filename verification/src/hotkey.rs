//! The raw shape of a hotkey string: modifiers and a key between `+` signs.
use vstd::prelude::*;

use crate::query_dsl::strings;
use crate::search::views;
use crate::settings::split_on;
use crate::text;

verus! {

/// A hotkey split into its modifier texts and its key text, as written.
#[derive(Debug, Clone, PartialEq, Eq)]
pub struct Hotkey {
    pub modifiers: Vec<String>,
    pub key: String,
}

/// Splits `input` on `+`: every piece but the last is a modifier, the last is
/// the key. Fewer than two pieces is an error.
pub fn parse_hotkey(input: &str) -> (r: Result<Hotkey, String>)
    ensures
        match r {
            Ok(h) => {
                let parts = split_on(input@, '+');
                &&& parts.len() >= 2
                &&& strings(h.modifiers@) == parts.drop_last()
                &&& h.key@ == parts.last()
            },
            Err(e) => split_on(input@, '+').len() < 2 && e@ == "invalid hotkey"@,
        },
{
    let v = text::chars_of(input);
    let parts = crate::settings::split_chars(&v, '+');
    if parts.len() < 2 {
        return Err(text::owned("invalid hotkey"));
    }
    let last = parts.len() - 1;
    let mut modifiers: Vec<String> = Vec::new();
    let mut i: usize = 0;
    while i < last
        invariant
            i <= last,
            last == parts.len() - 1,
            strings(modifiers@) == views(parts@).take(i as int),
        decreases last - i,
    {
        let s = text::string_of(&parts[i]);
        let ghost before = modifiers@;
        modifiers.push(s);
        proof {
            assert(strings(modifiers@) =~= strings(before).push(s@));
            assert(views(parts@).take((i + 1) as int) =~= views(parts@).take(i as int).push(parts@[i as int]@));
        }
        i = i + 1;
    }
    proof {
        assert(views(parts@).take(last as int) =~= views(parts@).drop_last());
    }
    Ok(Hotkey { modifiers, key: text::string_of(&parts[last]) })
}

} // verus!
