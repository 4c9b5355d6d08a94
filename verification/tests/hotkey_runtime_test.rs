use swiftfind_core::hotkey_runtime::{HotkeyRegistrar, HotkeyRegistration, MockHotkeyRegistrar};

#[test]
fn mock_registrar_tracks_registration_lifecycle() {
    let mut registrar = MockHotkeyRegistrar::default();

    let first = registrar.register_hotkey("Alt+Space").unwrap();
    assert_eq!(first, HotkeyRegistration::Noop("Alt+Space".to_string()));
    assert_eq!(registrar.registrations().len(), 1);

    registrar.unregister_all().unwrap();
    assert!(registrar.registrations().is_empty());
}

use swiftfind_core::hotkey_runtime::{
    default_hotkey_registrar, native_hotkey, HotkeyRuntimeError, NativeHotkey, WindowsHotkeyRegistrar,
};

#[test]
fn default_registrar_is_noop_on_non_windows() {
    let mut registrar = default_hotkey_registrar();

    let registration = registrar.register_hotkey("Alt+Space").unwrap();
    assert_eq!(registration, HotkeyRegistration::Noop("Alt+Space".to_string()));
    registrar.unregister_all().unwrap();
}

#[test]
fn native_hotkeys_combine_modifier_flags_and_key_codes() {
    assert_eq!(native_hotkey("Alt+Space"), Ok((1, 0x20)));
    assert_eq!(native_hotkey("ctrl+SHIFT+f12"), Ok((2 | 4, 0x7B)));
    assert_eq!(native_hotkey("Control+Win+k"), Ok((2 | 8, 'K' as u32)));
    assert_eq!(native_hotkey("Meta+Super+F1"), Ok((8, 0x70)));
}

#[test]
fn unsupported_hotkeys_are_refused_with_the_reason() {
    assert_eq!(
        native_hotkey("Space"),
        Err(HotkeyRuntimeError::InvalidHotkey("invalid hotkey".to_string()))
    );
    assert_eq!(
        native_hotkey("Hyper+Alt+Space"),
        Err(HotkeyRuntimeError::InvalidHotkey("unsupported modifier: Hyper".to_string()))
    );
    assert_eq!(
        native_hotkey("Alt+Enter"),
        Err(HotkeyRuntimeError::InvalidHotkey("unsupported key: Enter".to_string()))
    );
    assert_eq!(
        native_hotkey("Alt+é"),
        Err(HotkeyRuntimeError::InvalidHotkey("unsupported key: é".to_string()))
    );
}

#[test]
fn native_registrar_hands_out_ids_and_remembers_registrations() {
    let mut registrar = WindowsHotkeyRegistrar::default();
    assert_eq!(registrar.next_id(), 1);

    let first = registrar.prepare("Alt+Space").unwrap();
    assert_eq!(first, NativeHotkey { id: 1, modifiers: 1, vk: 0x20 });
    assert_eq!(registrar.finish("Alt+Space", first.id, true), Ok(HotkeyRegistration::Native(1)));

    assert!(registrar.prepare("Alt+Enter").is_err());
    assert_eq!(registrar.next_id(), 2);

    let second = registrar.prepare("Ctrl+F2").unwrap();
    assert_eq!(second.id, 2);
    assert_eq!(
        registrar.finish("Ctrl+F2", second.id, false),
        Err(HotkeyRuntimeError::RegistrationFailed("RegisterHotKey failed for 'Ctrl+F2'".to_string()))
    );

    assert_eq!(registrar.take_registered_ids(), vec![1]);
    assert!(registrar.take_registered_ids().is_empty());
    assert_eq!(registrar.next_id(), 3);
}

#[test]
fn hotkeys_the_settings_accept_register_natively() {
    let canonical = swiftfind_core::settings::validate_hotkey(" shift + ctrl + p ").unwrap();
    assert_eq!(native_hotkey(&canonical), Ok((2 | 4, 'P' as u32)));

    let function_key = swiftfind_core::settings::validate_hotkey("alt+f9").unwrap();
    assert_eq!(native_hotkey(&function_key), Ok((1, 0x78)));

    let high = swiftfind_core::settings::validate_hotkey("Ctrl+F13").unwrap();
    assert_eq!(high, "Ctrl+F13");
    assert_eq!(
        native_hotkey(&high),
        Err(HotkeyRuntimeError::InvalidHotkey("unsupported key: F13".to_string()))
    );
}
