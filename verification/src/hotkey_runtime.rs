//! Global hotkey registration: the registrar interface and the registrars
//! that only record what they were asked to register.
use vstd::prelude::*;

use crate::hotkey::parse_hotkey;
use crate::query_dsl::strings;
use crate::settings::{
    canonical_hotkey_text, decimal, digits_value, hotkey_parts, hotkey_validation, is_ascii_alnum, key_of,
    lemma_canonical_split, lemma_key_canonical, modifier_names, names_modifier, split_on,
};
use crate::text;

verus! {

/// What a registration produced: a native hotkey id, or a recorded no-op.
#[derive(Debug, Clone, PartialEq, Eq)]
pub enum HotkeyRegistration {
    Native(i32),
    Noop(String),
}

#[derive(Debug, Clone, PartialEq, Eq)]
pub enum HotkeyRuntimeError {
    InvalidHotkey(String),
    RegistrationFailed(String),
    UnsupportedPlatform,
}

/// Registers global hotkeys.
pub trait HotkeyRegistrar {
    fn register_hotkey(&mut self, hotkey: &str) -> Result<HotkeyRegistration, HotkeyRuntimeError>;

    fn unregister_all(&mut self) -> Result<(), HotkeyRuntimeError>;
}

/// Records a hotkey that parses; refuses one that does not.
fn record_registration(registrations: &mut Vec<String>, hotkey: &str) -> (r: Result<HotkeyRegistration, HotkeyRuntimeError>)
    ensures
        split_on(hotkey@, '+').len() >= 2 ==> (r matches Ok(HotkeyRegistration::Noop(h)) && h@ == hotkey@
            && strings(final(registrations)@) == strings(old(registrations)@).push(hotkey@)),
        split_on(hotkey@, '+').len() < 2 ==> (r matches Err(HotkeyRuntimeError::InvalidHotkey(m)) && m@
            == "invalid hotkey"@ && final(registrations)@ == old(registrations)@),
{
    match parse_hotkey(hotkey) {
        Ok(_) => {},
        Err(e) => {
            return Err(HotkeyRuntimeError::InvalidHotkey(e));
        },
    }
    let ghost before = registrations@;
    let h = text::owned(hotkey);
    registrations.push(h);
    proof {
        assert(strings(registrations@) =~= strings(before).push(hotkey@));
    }
    Ok(HotkeyRegistration::Noop(text::owned(hotkey)))
}

/// A registrar for tests: it records the hotkeys it is given.
pub struct MockHotkeyRegistrar {
    registrations: Vec<String>,
}

impl Default for MockHotkeyRegistrar {
    fn default() -> (r: Self)
        ensures
            r.recorded().len() == 0,
    {
        MockHotkeyRegistrar { registrations: Vec::new() }
    }
}

impl MockHotkeyRegistrar {
    pub closed spec fn recorded(self) -> Seq<Seq<char>> {
        strings(self.registrations@)
    }

    pub fn registrations(&self) -> (r: &[String])
        ensures
            strings(r@) == self.recorded(),
    {
        self.registrations.as_slice()
    }
}

impl HotkeyRegistrar for MockHotkeyRegistrar {
    fn register_hotkey(&mut self, hotkey: &str) -> (r: Result<HotkeyRegistration, HotkeyRuntimeError>)
        ensures
            split_on(hotkey@, '+').len() >= 2 ==> (r matches Ok(HotkeyRegistration::Noop(h)) && h@ == hotkey@
                && final(self).recorded() == old(self).recorded().push(hotkey@)),
            split_on(hotkey@, '+').len() < 2 ==> r is Err && final(self).recorded() == old(self).recorded(),
    {
        record_registration(&mut self.registrations, hotkey)
    }

    fn unregister_all(&mut self) -> (r: Result<(), HotkeyRuntimeError>)
        ensures
            r is Ok,
            final(self).recorded().len() == 0,
    {
        self.registrations.clear();
        proof {
            assert(strings(self.registrations@) =~= Seq::<Seq<char>>::empty());
        }
        Ok(())
    }
}

/// The registrar used where native hotkeys are not available: it records
/// the hotkeys and registers nothing.
pub struct NoopHotkeyRegistrar {
    registrations: Vec<String>,
}

impl Default for NoopHotkeyRegistrar {
    fn default() -> (r: Self)
        ensures
            r.recorded().len() == 0,
    {
        NoopHotkeyRegistrar { registrations: Vec::new() }
    }
}

impl NoopHotkeyRegistrar {
    pub closed spec fn recorded(self) -> Seq<Seq<char>> {
        strings(self.registrations@)
    }

    pub fn registrations(&self) -> (r: &[String])
        ensures
            strings(r@) == self.recorded(),
    {
        self.registrations.as_slice()
    }
}

impl HotkeyRegistrar for NoopHotkeyRegistrar {
    fn register_hotkey(&mut self, hotkey: &str) -> (r: Result<HotkeyRegistration, HotkeyRuntimeError>)
        ensures
            split_on(hotkey@, '+').len() >= 2 ==> (r matches Ok(HotkeyRegistration::Noop(h)) && h@ == hotkey@
                && final(self).recorded() == old(self).recorded().push(hotkey@)),
            split_on(hotkey@, '+').len() < 2 ==> r is Err && final(self).recorded() == old(self).recorded(),
    {
        record_registration(&mut self.registrations, hotkey)
    }

    fn unregister_all(&mut self) -> (r: Result<(), HotkeyRuntimeError>)
        ensures
            r is Ok,
            final(self).recorded().len() == 0,
    {
        self.registrations.clear();
        proof {
            assert(strings(self.registrations@) =~= Seq::<Seq<char>>::empty());
        }
        Ok(())
    }
}

/// The registrar used by this library: it records the hotkeys and leaves
/// native registration to the window shell.
pub fn default_hotkey_registrar() -> (r: NoopHotkeyRegistrar)
    ensures
        r.recorded().len() == 0,
{
    NoopHotkeyRegistrar::default()
}

// ---------------------------------------------------------------------------
// Native registration
// ---------------------------------------------------------------------------

/// The Win32 modifier flag of a modifier name, in any ASCII case: `MOD_ALT`
/// (1), `MOD_CONTROL` (2), `MOD_SHIFT` (4) or `MOD_WIN` (8).
pub open spec fn modifier_flag(m: Seq<char>) -> Option<u32> {
    let l = text::ascii_lower(m);
    if l == "alt"@ {
        Some(1)
    } else if l == "ctrl"@ || l == "control"@ {
        Some(2)
    } else if l == "shift"@ {
        Some(4)
    } else if l == "win"@ || l == "meta"@ || l == "super"@ {
        Some(8)
    } else {
        None
    }
}

/// The modifier flags of `mods` together, or the first one not supported.
pub open spec fn modifier_mask(mods: Seq<Seq<char>>) -> Result<u32, Seq<char>>
    decreases mods.len(),
{
    if mods.len() == 0 {
        Ok(0)
    } else {
        match modifier_mask(mods.drop_last()) {
            Err(m) => Err(m),
            Ok(acc) => match modifier_flag(mods.last()) {
                Some(f) => Ok(acc | f),
                None => Err(mods.last()),
            },
        }
    }
}

/// The Win32 virtual-key code of a key name, in any ASCII case: `VK_SPACE`
/// (0x20), `VK_F1` to `VK_F12` (0x70 to 0x7B), or the code of a single
/// ASCII character.
pub open spec fn key_code(key: Seq<char>) -> Option<u32> {
    let u = text::ascii_upper(key);
    if u == "SPACE"@ {
        Some(0x20)
    } else if u == "F1"@ {
        Some(0x70)
    } else if u == "F2"@ {
        Some(0x71)
    } else if u == "F3"@ {
        Some(0x72)
    } else if u == "F4"@ {
        Some(0x73)
    } else if u == "F5"@ {
        Some(0x74)
    } else if u == "F6"@ {
        Some(0x75)
    } else if u == "F7"@ {
        Some(0x76)
    } else if u == "F8"@ {
        Some(0x77)
    } else if u == "F9"@ {
        Some(0x78)
    } else if u == "F10"@ {
        Some(0x79)
    } else if u == "F11"@ {
        Some(0x7A)
    } else if u == "F12"@ {
        Some(0x7B)
    } else if text::byte_len(u) == 1 {
        Some(u[0] as u32)
    } else {
        None
    }
}

/// The native modifiers and key of a hotkey, or why it cannot be registered.
pub open spec fn native_hotkey_spec(hotkey: Seq<char>) -> Result<(u32, u32), Seq<char>> {
    let parts = split_on(hotkey, '+');
    if parts.len() < 2 {
        Err("invalid hotkey"@)
    } else {
        match modifier_mask(parts.drop_last()) {
            Err(m) => Err("unsupported modifier: "@ + m),
            Ok(mask) => match key_code(parts.last()) {
                Some(k) => Ok((mask, k)),
                None => Err("unsupported key: "@ + parts.last()),
            },
        }
    }
}

fn modifier_flag_of(m: &str) -> (r: Option<u32>)
    ensures
        r == modifier_flag(m@),
{
    let l = text::to_ascii_lowercase(m);
    let s = l.as_str();
    if text::str_eq(s, "alt") {
        Some(1)
    } else if text::str_eq(s, "ctrl") || text::str_eq(s, "control") {
        Some(2)
    } else if text::str_eq(s, "shift") {
        Some(4)
    } else if text::str_eq(s, "win") || text::str_eq(s, "meta") || text::str_eq(s, "super") {
        Some(8)
    } else {
        None
    }
}

fn key_code_of(key: &str) -> (r: Option<u32>)
    ensures
        r == key_code(key@),
{
    let upper = text::to_ascii_uppercase(key);
    let u = upper.as_str();
    if text::str_eq(u, "SPACE") {
        Some(0x20)
    } else if text::str_eq(u, "F1") {
        Some(0x70)
    } else if text::str_eq(u, "F2") {
        Some(0x71)
    } else if text::str_eq(u, "F3") {
        Some(0x72)
    } else if text::str_eq(u, "F4") {
        Some(0x73)
    } else if text::str_eq(u, "F5") {
        Some(0x74)
    } else if text::str_eq(u, "F6") {
        Some(0x75)
    } else if text::str_eq(u, "F7") {
        Some(0x76)
    } else if text::str_eq(u, "F8") {
        Some(0x77)
    } else if text::str_eq(u, "F9") {
        Some(0x78)
    } else if text::str_eq(u, "F10") {
        Some(0x79)
    } else if text::str_eq(u, "F11") {
        Some(0x7A)
    } else if text::str_eq(u, "F12") {
        Some(0x7B)
    } else {
        let v = text::chars_of(u);
        if text::byte_len_of(&v) == 1 {
            Some(v[0] as u32)
        } else {
            None
        }
    }
}

/// The native modifier flags and virtual-key code that register `hotkey`.
pub fn native_hotkey(hotkey: &str) -> (r: Result<(u32, u32), HotkeyRuntimeError>)
    ensures
        match native_hotkey_spec(hotkey@) {
            Ok(codes) => r == Ok::<(u32, u32), HotkeyRuntimeError>(codes),
            Err(m) => r matches Err(HotkeyRuntimeError::InvalidHotkey(e)) && e@ == m,
        },
{
    let parsed = match parse_hotkey(hotkey) {
        Ok(h) => h,
        Err(e) => {
            return Err(HotkeyRuntimeError::InvalidHotkey(e));
        },
    };
    let ghost parts = split_on(hotkey@, '+');
    let ghost mods = parts.drop_last();
    let mut mask: u32 = 0;
    let mut i: usize = 0;
    while i < parsed.modifiers.len()
        invariant
            i <= parsed.modifiers@.len(),
            parts == split_on(hotkey@, '+'),
            parts.len() >= 2,
            mods == parts.drop_last(),
            strings(parsed.modifiers@) == mods,
            modifier_mask(mods.take(i as int)) == Ok::<u32, Seq<char>>(mask),
        decreases parsed.modifiers@.len() - i,
    {
        let m = &parsed.modifiers[i];
        proof {
            assert(strings(parsed.modifiers@)[i as int] == m@);
            assert(mods.take((i + 1) as int).drop_last() =~= mods.take(i as int));
            assert(mods.take((i + 1) as int).last() == m@);
        }
        match modifier_flag_of(m.as_str()) {
            Some(f) => {
                mask = mask | f;
            },
            None => {
                proof {
                    assert(modifier_mask(mods.take((i + 1) as int)) == Err::<u32, Seq<char>>(m@));
                    lemma_mask_error_stays(mods, (i + 1) as int);
                }
                return Err(HotkeyRuntimeError::InvalidHotkey(text::concat("unsupported modifier: ", m.as_str())));
            },
        }
        i = i + 1;
    }
    proof {
        assert(mods.take(mods.len() as int) =~= mods);
    }
    match key_code_of(parsed.key.as_str()) {
        Some(k) => Ok((mask, k)),
        None => Err(HotkeyRuntimeError::InvalidHotkey(text::concat("unsupported key: ", parsed.key.as_str()))),
    }
}

/// Once some prefix of the modifiers holds an unsupported one, the whole
/// mask reports that one.
proof fn lemma_mask_error_stays(mods: Seq<Seq<char>>, k: int)
    requires
        0 <= k <= mods.len(),
        modifier_mask(mods.take(k)) is Err,
    ensures
        modifier_mask(mods) == modifier_mask(mods.take(k)),
    decreases mods.len() - k,
{
    if k < mods.len() {
        assert(mods.take(k + 1).drop_last() =~= mods.take(k));
        lemma_mask_error_stays(mods, k + 1);
    } else {
        assert(mods.take(k) =~= mods);
    }
}

/// A hotkey ready for native registration: the id to register it under and
/// its modifier flags and key code.
#[derive(Debug, Clone, Copy, PartialEq, Eq)]
pub struct NativeHotkey {
    pub id: i32,
    pub modifiers: u32,
    pub vk: u32,
}

/// The bookkeeping of native hotkey registration: the next id to hand out
/// and the ids registered so far. The window shell makes the native calls.
pub struct WindowsHotkeyRegistrar {
    next_id: i32,
    registered_ids: Vec<i32>,
}

impl Default for WindowsHotkeyRegistrar {
    fn default() -> (r: Self)
        ensures
            r.next() == 1,
            r.ids().len() == 0,
    {
        WindowsHotkeyRegistrar { next_id: 1, registered_ids: Vec::new() }
    }
}

impl WindowsHotkeyRegistrar {
    pub closed spec fn next(self) -> int {
        self.next_id as int
    }

    pub closed spec fn ids(self) -> Seq<i32> {
        self.registered_ids@
    }

    /// The id the next registration gets.
    pub fn next_id(&self) -> (id: i32)
        ensures
            id == self.next(),
    {
        self.next_id
    }

    /// Prepares the registration of `hotkey`: its native codes under the next
    /// id, which is then used up; an unsupported hotkey uses up nothing.
    pub fn prepare(&mut self, hotkey: &str) -> (r: Result<NativeHotkey, HotkeyRuntimeError>)
        requires
            old(self).next() < i32::MAX,
        ensures
            final(self).ids() == old(self).ids(),
            match native_hotkey_spec(hotkey@) {
                Ok((m, k)) => r == Ok::<NativeHotkey, HotkeyRuntimeError>(
                    NativeHotkey { id: old(self).next() as i32, modifiers: m, vk: k },
                ) && final(self).next() == old(self).next() + 1,
                Err(e) => (r matches Err(HotkeyRuntimeError::InvalidHotkey(x)) && x@ == e) && final(self).next()
                    == old(self).next(),
            },
    {
        let (modifiers, vk) = match native_hotkey(hotkey) {
            Ok(codes) => codes,
            Err(e) => {
                return Err(e);
            },
        };
        let id = self.next_id;
        self.next_id = self.next_id + 1;
        Ok(NativeHotkey { id, modifiers, vk })
    }

    /// Records how the native registration of `hotkey` under `id` went.
    pub fn finish(&mut self, hotkey: &str, id: i32, registered: bool) -> (r: Result<HotkeyRegistration, HotkeyRuntimeError>)
        ensures
            final(self).next() == old(self).next(),
            registered ==> r == Ok::<HotkeyRegistration, HotkeyRuntimeError>(HotkeyRegistration::Native(id))
                && final(self).ids() == old(self).ids().push(id),
            !registered ==> (r matches Err(HotkeyRuntimeError::RegistrationFailed(m)) && m@ == "RegisterHotKey failed for '"@
                + hotkey@ + "'"@) && final(self).ids() == old(self).ids(),
    {
        if !registered {
            let mut m = text::concat("RegisterHotKey failed for '", hotkey);
            text::push_str(&mut m, "'");
            return Err(HotkeyRuntimeError::RegistrationFailed(m));
        }
        self.registered_ids.push(id);
        Ok(HotkeyRegistration::Native(id))
    }

    /// Hands out the registered ids for unregistering and forgets them.
    pub fn take_registered_ids(&mut self) -> (ids: Vec<i32>)
        ensures
            ids@ == old(self).ids(),
            final(self).ids().len() == 0,
            final(self).next() == old(self).next(),
    {
        let mut ids: Vec<i32> = Vec::new();
        std::mem::swap(&mut ids, &mut self.registered_ids);
        ids
    }
}

// ---------------------------------------------------------------------------
// Accepted hotkeys can be registered
// ---------------------------------------------------------------------------

/// A function key that the settings accept and native registration does
/// not: F13 to F24.
pub open spec fn high_function_key(key: Seq<char>) -> bool {
    exists|n: nat| 13 <= n <= 24 && key == seq!['F'] + decimal(n)
}

proof fn lemma_mask_of_names(ctrl: bool, alt: bool, shift: bool)
    ensures
        modifier_mask(modifier_names(ctrl, alt, shift)) is Ok,
{
    reveal_strlit("Ctrl");
    reveal_strlit("Alt");
    reveal_strlit("Shift");
    reveal_strlit("ctrl");
    reveal_strlit("alt");
    reveal_strlit("shift");
    reveal_strlit("control");
    assert(text::ascii_lower("Ctrl"@) =~= "ctrl"@);
    assert(text::ascii_lower("Alt"@) =~= "alt"@);
    assert(text::ascii_lower("Shift"@) =~= "shift"@);
    assert(modifier_flag("Ctrl"@) == Some(2u32));
    assert(modifier_flag("Alt"@) == Some(1u32)) by {
        assert(text::ascii_lower("Alt"@) != "ctrl"@ && text::ascii_lower("Alt"@) != "control"@);
    }
    assert(modifier_flag("Shift"@) == Some(4u32)) by {
        assert(text::ascii_lower("Shift"@) != "ctrl"@ && text::ascii_lower("Shift"@) != "control"@);
        assert(text::ascii_lower("Shift"@) != "alt"@);
    }
    let names = modifier_names(ctrl, alt, shift);
    lemma_mask_ok(names);
}

proof fn lemma_mask_ok(names: Seq<Seq<char>>)
    requires
        forall|i: int| 0 <= i < names.len() ==> modifier_flag(#[trigger] names[i]) is Some,
    ensures
        modifier_mask(names) is Ok,
    decreases names.len(),
{
    if names.len() > 0 {
        let d = names.drop_last();
        assert forall|i: int| 0 <= i < d.len() implies modifier_flag(#[trigger] d[i]) is Some by {
            assert(d[i] == names[i]);
        }
        lemma_mask_ok(d);
        assert(modifier_flag(names[names.len() - 1]) is Some);
    }
}

proof fn lemma_function_key_code(n: nat)
    requires
        1 <= n <= 12,
    ensures
        key_code(seq!['F'] + decimal(n)) is Some,
{
    let k = seq!['F'] + decimal(n);
    reveal_with_fuel(decimal, 2);
    if n < 10 {
        assert(decimal(n) == seq![(n + '0' as nat) as char]);
    } else {
        assert(decimal(n) == decimal(n / 10).push(((n % 10) + '0' as nat) as char));
        assert(decimal(n / 10) == seq!['1']);
    }
    assert forall|i: int| 0 <= i < k.len() implies text::ascii_upper_char(#[trigger] k[i]) == k[i] by {}
    assert(text::ascii_upper(k) =~= k);
    reveal_strlit("SPACE");
    reveal_strlit("F1");
    reveal_strlit("F2");
    reveal_strlit("F3");
    reveal_strlit("F4");
    reveal_strlit("F5");
    reveal_strlit("F6");
    reveal_strlit("F7");
    reveal_strlit("F8");
    reveal_strlit("F9");
    reveal_strlit("F10");
    reveal_strlit("F11");
    reveal_strlit("F12");
    if n == 1 {
        assert(k =~= "F1"@);
    } else if n == 2 {
        assert(k =~= "F2"@);
    } else if n == 3 {
        assert(k =~= "F3"@);
    } else if n == 4 {
        assert(k =~= "F4"@);
    } else if n == 5 {
        assert(k =~= "F5"@);
    } else if n == 6 {
        assert(k =~= "F6"@);
    } else if n == 7 {
        assert(k =~= "F7"@);
    } else if n == 8 {
        assert(k =~= "F8"@);
    } else if n == 9 {
        assert(k =~= "F9"@);
    } else if n == 10 {
        assert(k =~= "F10"@);
    } else if n == 11 {
        assert(k =~= "F11"@);
    } else {
        assert(k =~= "F12"@);
    }
}

proof fn lemma_accepted_key_code(part: Seq<char>)
    requires
        key_of(part) is Ok,
        !high_function_key(key_of(part)->Ok_0),
    ensures
        key_code(key_of(part)->Ok_0) is Some,
{
    reveal_strlit("SPACE");
    reveal_strlit("Space");
    let raw = text::trim(part);
    let upper = text::ascii_upper(raw);
    let k = key_of(part)->Ok_0;
    if upper == "SPACE"@ {
        assert(text::ascii_upper(k) =~= "SPACE"@);
    } else if upper[0] == 'F' {
        let v = digits_value(upper.drop_first());
        assert(k == seq!['F'] + decimal(v as nat));
        if v > 12 {
            assert(high_function_key(k));
        }
        lemma_function_key_code(v as nat);
    } else {
        assert(upper.len() == 1 && is_ascii_alnum(upper[0]));
        assert(text::ascii_upper(k) =~= k);
        assert(k.drop_last() =~= Seq::<char>::empty());
        assert(text::byte_len(Seq::<char>::empty()) == 0);
        assert(k.last() == upper[0]);
        assert((k.last() as u32) < 0x80);
        assert(text::byte_len(k) == 1);
        assert(k != "SPACE"@);
        assert(k.len() == 1);
    }
}

/// A hotkey that the settings accept can be registered natively, with the
/// modifier flags of the modifiers it names, unless its key is F13 to F24,
/// which native registration does not support.
pub proof fn law_accepted_hotkeys_register_natively(input: Seq<char>)
    requires
        hotkey_validation(input) is Ok,
        !high_function_key(key_of(hotkey_parts(input).last())->Ok_0),
    ensures
        native_hotkey_spec(hotkey_validation(input)->Ok_0) is Ok,
{
    let parts = hotkey_parts(input);
    let mods = parts.drop_last();
    let key = key_of(parts.last())->Ok_0;
    let ctrl = names_modifier(mods, "Ctrl"@);
    let alt = names_modifier(mods, "Alt"@);
    let shift = names_modifier(mods, "Shift"@);
    let c = canonical_hotkey_text(ctrl, alt, shift, key);
    assert(hotkey_validation(input) == Ok::<Seq<char>, Seq<char>>(c));
    lemma_key_canonical(parts.last());
    lemma_canonical_split(ctrl, alt, shift, key);
    let names = modifier_names(ctrl, alt, shift);
    let split = names.push(key);
    assert(split_on(c, '+') == split);
    assert(names.len() >= 1);
    assert(split.drop_last() =~= names);
    assert(split.last() == key);
    lemma_mask_of_names(ctrl, alt, shift);
    lemma_accepted_key_code(parts.last());
}

proof fn lemma_function_key_name(n: nat)
    requires
        1 <= n <= 12,
    ensures
        n < 10 ==> ("F"@ + decimal(n)) =~= seq!['F', (n + '0' as nat) as char],
        n >= 10 ==> ("F"@ + decimal(n)) =~= seq!['F', '1', ((n - 10) + '0' as nat) as char],
{
    reveal_strlit("F");
    if n >= 10 {
        assert(decimal(n / 10) =~= seq!['1']);
    }
}

/// A function key, `F1` to `F12` in any ASCII case, has the virtual-key code
/// `VK_F1` (0x70) to `VK_F12` (0x7B): `F<n>` is 0x6F + n.
pub proof fn law_function_key_codes(key: Seq<char>, n: nat)
    requires
        1 <= n <= 12,
        text::ascii_upper(key) == "F"@ + decimal(n),
    ensures
        key_code(key) == Some((0x6F + n) as u32),
{
    lemma_function_key_name(n);
    let u = text::ascii_upper(key);
    reveal_strlit("SPACE");
    reveal_strlit("F1");
    reveal_strlit("F2");
    reveal_strlit("F3");
    reveal_strlit("F4");
    reveal_strlit("F5");
    reveal_strlit("F6");
    reveal_strlit("F7");
    reveal_strlit("F8");
    reveal_strlit("F9");
    reveal_strlit("F10");
    reveal_strlit("F11");
    reveal_strlit("F12");
    if n == 1 {
        assert(u =~= "F1"@);
        assert(u != "SPACE"@);
    } else if n == 2 {
        assert(u =~= "F2"@);
        assert(u != "SPACE"@);
        assert(u[1] != "F1"@[1]);
    } else if n == 3 {
        assert(u =~= "F3"@);
        assert(u != "SPACE"@);
        assert(u[1] != "F1"@[1]);
        assert(u[1] != "F2"@[1]);
    } else if n == 4 {
        assert(u =~= "F4"@);
        assert(u != "SPACE"@);
        assert(u[1] != "F1"@[1]);
        assert(u[1] != "F2"@[1]);
        assert(u[1] != "F3"@[1]);
    } else if n == 5 {
        assert(u =~= "F5"@);
        assert(u != "SPACE"@);
        assert(u[1] != "F1"@[1]);
        assert(u[1] != "F2"@[1]);
        assert(u[1] != "F3"@[1]);
        assert(u[1] != "F4"@[1]);
    } else if n == 6 {
        assert(u =~= "F6"@);
        assert(u != "SPACE"@);
        assert(u[1] != "F1"@[1]);
        assert(u[1] != "F2"@[1]);
        assert(u[1] != "F3"@[1]);
        assert(u[1] != "F4"@[1]);
        assert(u[1] != "F5"@[1]);
    } else if n == 7 {
        assert(u =~= "F7"@);
        assert(u != "SPACE"@);
        assert(u[1] != "F1"@[1]);
        assert(u[1] != "F2"@[1]);
        assert(u[1] != "F3"@[1]);
        assert(u[1] != "F4"@[1]);
        assert(u[1] != "F5"@[1]);
        assert(u[1] != "F6"@[1]);
    } else if n == 8 {
        assert(u =~= "F8"@);
        assert(u != "SPACE"@);
        assert(u[1] != "F1"@[1]);
        assert(u[1] != "F2"@[1]);
        assert(u[1] != "F3"@[1]);
        assert(u[1] != "F4"@[1]);
        assert(u[1] != "F5"@[1]);
        assert(u[1] != "F6"@[1]);
        assert(u[1] != "F7"@[1]);
    } else if n == 9 {
        assert(u =~= "F9"@);
        assert(u != "SPACE"@);
        assert(u[1] != "F1"@[1]);
        assert(u[1] != "F2"@[1]);
        assert(u[1] != "F3"@[1]);
        assert(u[1] != "F4"@[1]);
        assert(u[1] != "F5"@[1]);
        assert(u[1] != "F6"@[1]);
        assert(u[1] != "F7"@[1]);
        assert(u[1] != "F8"@[1]);
    } else if n == 10 {
        assert(u =~= "F10"@);
        assert(u != "SPACE"@);
        assert(u.len() != "F1"@.len());
        assert(u.len() != "F2"@.len());
        assert(u.len() != "F3"@.len());
        assert(u.len() != "F4"@.len());
        assert(u.len() != "F5"@.len());
        assert(u.len() != "F6"@.len());
        assert(u.len() != "F7"@.len());
        assert(u.len() != "F8"@.len());
        assert(u.len() != "F9"@.len());
    } else if n == 11 {
        assert(u =~= "F11"@);
        assert(u != "SPACE"@);
        assert(u.len() != "F1"@.len());
        assert(u.len() != "F2"@.len());
        assert(u.len() != "F3"@.len());
        assert(u.len() != "F4"@.len());
        assert(u.len() != "F5"@.len());
        assert(u.len() != "F6"@.len());
        assert(u.len() != "F7"@.len());
        assert(u.len() != "F8"@.len());
        assert(u.len() != "F9"@.len());
        assert(u[2] != "F10"@[2]);
    } else if n == 12 {
        assert(u =~= "F12"@);
        assert(u != "SPACE"@);
        assert(u.len() != "F1"@.len());
        assert(u.len() != "F2"@.len());
        assert(u.len() != "F3"@.len());
        assert(u.len() != "F4"@.len());
        assert(u.len() != "F5"@.len());
        assert(u.len() != "F6"@.len());
        assert(u.len() != "F7"@.len());
        assert(u.len() != "F8"@.len());
        assert(u.len() != "F9"@.len());
        assert(u[2] != "F10"@[2]);
        assert(u[2] != "F11"@[2]);
    }
}

/// A hotkey of `Ctrl` and a function key `F<n>` (in any ASCII case)
/// registers with `MOD_CONTROL` (2) and that key's code, 0x6F + n.
pub proof fn law_ctrl_function_key_registers(hotkey: Seq<char>, key: Seq<char>, n: nat)
    requires
        1 <= n <= 12,
        split_on(hotkey, '+') == seq!["Ctrl"@, key],
        text::ascii_upper(key) == "F"@ + decimal(n),
    ensures
        native_hotkey_spec(hotkey) == Ok::<(u32, u32), Seq<char>>((2u32, (0x6F + n) as u32)),
{
    law_function_key_codes(key, n);
    reveal_strlit("Ctrl");
    reveal_strlit("ctrl");
    reveal_strlit("alt");
    let parts = split_on(hotkey, '+');
    let mods = parts.drop_last();
    assert(mods =~= seq!["Ctrl"@]);
    assert(text::ascii_lower("Ctrl"@) =~= "ctrl"@);
    assert(modifier_flag("Ctrl"@) == Some(2u32));
    assert(mods.drop_last() =~= Seq::<Seq<char>>::empty());
    assert(mods.last() == "Ctrl"@);
    assert(0u32 | 2u32 == 2u32) by (bit_vector);
    assert(modifier_mask(Seq::<Seq<char>>::empty()) == Ok::<u32, Seq<char>>(0u32));
    assert(modifier_mask(mods.drop_last()) == Ok::<u32, Seq<char>>(0u32));
    assert(modifier_mask(mods) == Ok::<u32, Seq<char>>(2u32));
    assert(parts.last() == key);
}

/// The keys a hotkey commonly names: `Space`, `F1` to `F12`, or one ASCII
/// letter or digit, in any ASCII case.
pub open spec fn standard_key(key: Seq<char>) -> bool {
    let u = text::ascii_upper(key);
    ||| u == "SPACE"@
    ||| exists|n: nat| 1 <= n <= 12 && u == "F"@ + decimal(n)
    ||| u.len() == 1 && (('A' <= u[0] && u[0] <= 'Z') || ('0' <= u[0] && u[0] <= '9'))
}

/// The code each standard key registers with: `Space` is `VK_SPACE` (0x20),
/// `F<n>` is 0x6F + n, and a letter or digit is the ASCII code of its
/// uppercase form.
pub proof fn law_standard_key_codes(key: Seq<char>)
    requires
        standard_key(key),
    ensures
        key_code(key) is Some,
        text::ascii_upper(key) == "SPACE"@ ==> key_code(key) == Some(0x20u32),
        forall|n: nat|
            1 <= n <= 12 && text::ascii_upper(key) == #[trigger] ("F"@ + decimal(n)) ==> key_code(key) == Some(
                (0x6F + n) as u32,
            ),
        text::ascii_upper(key).len() == 1 ==> key_code(key) == Some(text::ascii_upper(key)[0] as u32),
{
    let u = text::ascii_upper(key);
    reveal_strlit("SPACE");
    reveal_strlit("F1");
    reveal_strlit("F2");
    reveal_strlit("F3");
    reveal_strlit("F4");
    reveal_strlit("F5");
    reveal_strlit("F6");
    reveal_strlit("F7");
    reveal_strlit("F8");
    reveal_strlit("F9");
    reveal_strlit("F10");
    reveal_strlit("F11");
    reveal_strlit("F12");
    assert forall|n: nat|
        1 <= n <= 12 && u == #[trigger] ("F"@ + decimal(n)) implies key_code(key) == Some((0x6F + n) as u32) by {
        law_function_key_codes(key, n);
    }
    if u.len() == 1 {
        if exists|n: nat| 1 <= n <= 12 && u == "F"@ + decimal(n) {
            let n = choose|n: nat| 1 <= n <= 12 && u == "F"@ + decimal(n);
            lemma_function_key_name(n);
        }
        assert(('A' <= u[0] && u[0] <= 'Z') || ('0' <= u[0] && u[0] <= '9'));
        assert((u[0] as u32) < 0x80);
        assert(u.drop_last() =~= Seq::<char>::empty());
        assert(u.last() == u[0]);
        assert(text::byte_len(u.drop_last()) == 0);
        assert(text::byte_len(u) == 1);
    }
    if exists|n: nat| 1 <= n <= 12 && u == "F"@ + decimal(n) {
        let n = choose|n: nat| 1 <= n <= 12 && u == "F"@ + decimal(n);
        law_function_key_codes(key, n);
    }
}

/// Different standard keys (up to ASCII case) register different key codes,
/// so no hotkey triggers on another's key.
pub proof fn law_distinct_keys_distinct_codes(a: Seq<char>, b: Seq<char>)
    requires
        standard_key(a),
        standard_key(b),
        text::ascii_upper(a) != text::ascii_upper(b),
    ensures
        key_code(a) is Some,
        key_code(a) != key_code(b),
{
    law_standard_key_codes(a);
    law_standard_key_codes(b);
    let ua = text::ascii_upper(a);
    let ub = text::ascii_upper(b);
    reveal_strlit("SPACE");
    if exists|n: nat| 1 <= n <= 12 && ua == "F"@ + decimal(n) {
        let na = choose|n: nat| 1 <= n <= 12 && ua == "F"@ + decimal(n);
        lemma_function_key_name(na);
        assert(ua.len() >= 2);
        if exists|n: nat| 1 <= n <= 12 && ub == "F"@ + decimal(n) {
            let nb = choose|n: nat| 1 <= n <= 12 && ub == "F"@ + decimal(n);
            assert(na != nb);
        }
    }
    if exists|n: nat| 1 <= n <= 12 && ub == "F"@ + decimal(n) {
        let nb = choose|n: nat| 1 <= n <= 12 && ub == "F"@ + decimal(n);
        lemma_function_key_name(nb);
        assert(ub.len() >= 2);
    }
    if ua.len() == 1 && ub.len() == 1 {
        assert(ua[0] != ub[0]) by {
            if ua[0] == ub[0] {
                assert(ua =~= ub);
            }
        }
    }
}

} // verus!
