use redunar::hotkey_bindings::{
    check_own_status, check_parent_executable, check_parent_status, helper_beside, parse_chord,
    parse_process_identity, read_bindings, trusted_parent, BindingError, BindingReader,
    HelperRefusal, HotkeyAction, KeyChord, MOD_ALT, MOD_CONTROL, MOD_META, MOD_SHIFT,
};
use redunar::hotkey_monitor::{
    accelerated_pointer_motion, active_modifiers, button_command, control_path,
    device_link_name_matches, handle_key, is_modifier_key, is_usable_mouse, keeps_menu_open,
    key_event, logical_press_is_new, move_command, opens_menu, parse_pointer_event, read_reply,
    save_command, save_outcome, toggle_menu, watchdog_action, ControlReply, InputDevices,
    KeyDecision, KeyEvent, MenuCapture, PendingMotion, PointerEvent, PressedKeys, ToggleStep,
    WatchdogAction, BTN_LEFT, EV_KEY, EV_REL, KEY_ESC, KEY_LEFTALT, KEY_LEFTCTRL, KEY_RIGHTSHIFT,
    MENU_INACTIVITY_TIMEOUT, MENU_PING_INTERVAL, MOTION_INTERVAL, MOTION_LIMIT,
};

#[test]
fn shortcut_parser_is_bounded_and_supports_function_key_chords() {
    assert_eq!(parse_chord("F8").expect("F8").key, 66);
    assert_eq!(parse_chord("Shift+Tab").expect("Shift+Tab").key, 15);
    let chord = parse_chord("Ctrl+Shift+F10").expect("modified key");
    assert_eq!(chord.modifiers, MOD_CONTROL | MOD_SHIFT);
    assert_eq!(chord.key, 68);
    assert!(parse_chord("VolumeUp").is_err());
    assert!(parse_chord("F8+F9").is_err());
}

#[test]
fn configuration_accepts_only_known_durations() {
    let valid = "TOGGLE Shift+Tab\nBIND F8 30\nSTART\n";
    assert_eq!(
        read_bindings(valid).expect("valid")[1].action,
        HotkeyAction::Save(30)
    );
    let invalid = "TOGGLE Shift+Tab\nBIND F8 31\nSTART\n";
    assert!(read_bindings(invalid).is_err());
    let missing_toggle = "BIND F8 30\nSTART\n";
    assert_eq!(
        read_bindings(missing_toggle).unwrap()[0].action,
        HotkeyAction::Save(30)
    );
    let menu_only = "TOGGLE Shift+Tab\nSTART\n";
    assert_eq!(read_bindings(menu_only).unwrap().len(), 1);
}

#[test]
fn every_configuration_error_has_an_input() {
    for (configuration, error) in [
        ("BIND F8 30\n", BindingError::EndedEarly),
        ("START\n", BindingError::Missing),
        ("BINDF8 30\nSTART\n", BindingError::Invalid),
        ("BIND F8\nSTART\n", BindingError::Invalid),
        ("BIND F8 x\nSTART\n", BindingError::UnsupportedDuration),
        ("TOGGLE VolumeUp\nSTART\n", BindingError::UnsupportedKey),
        ("TOGGLE a+b\nSTART\n", BindingError::SeveralKeys),
        ("TOGGLE Ctrl\nSTART\n", BindingError::NoKey),
        ("TOGGLE a\nBIND A 30\nSTART\n", BindingError::Duplicate),
        ("TOGGLE a\nTOGGLE b\nSTART\n", BindingError::SeveralToggles),
        (
            "BIND 1 30\nBIND 2 30\nBIND 3 30\nBIND 4 30\nBIND 5 30\nBIND 6 30\nBIND 7 30\nBIND 8 30\nBIND 9 30\nBIND 0 30\nSTART\n",
            BindingError::TooMany,
        ),
    ] {
        assert_eq!(read_bindings(configuration), Err(error), "{configuration}");
    }
    assert_eq!(
        BindingError::EndedEarly.message(),
        "shortcut configuration ended before START"
    );
}

#[test]
fn shortcuts_allow_brackets_spaces_and_every_modifier() {
    assert_eq!(
        parse_chord("<Super> <Alt> win control meta+Return"),
        Err(BindingError::UnsupportedKey)
    );
    assert_eq!(
        parse_chord("<Super> <Alt>Return"),
        Ok(KeyChord {
            key: 28,
            modifiers: MOD_META | MOD_ALT,
            action: HotkeyAction::ToggleOverlay,
        })
    );
    assert_eq!(parse_chord("F12").expect("F12").key, 88);
    assert_eq!(parse_chord("0").expect("digit").key, 11);
}

#[test]
fn configuration_can_be_read_line_by_line() {
    let mut reader = BindingReader::new();
    assert_eq!(reader.read_line("BIND Ctrl+F8 900\r\n"), Ok(false));
    assert_eq!(
        reader.read_line("BIND Ctrl+F8 15\n"),
        Err(BindingError::Duplicate)
    );
    assert_eq!(reader.read_line("START\r\r\n"), Ok(true));
    assert_eq!(
        reader.finish(),
        Ok(vec![KeyChord {
            key: 66,
            modifiers: MOD_CONTROL,
            action: HotkeyAction::Save(900),
        }])
    );
}

#[test]
fn process_identity_reads_effective_uid_and_nonzero_parent() {
    let status = "Name:\tredunar-hotkey\nPPid:\t4321\nUid:\t1000\t1000\t1000\t1000\n";
    assert_eq!(parse_process_identity(status), Ok((1000, 4_321)));
    assert_eq!(
        parse_process_identity("Uid:\t0\t0\t0\t0\nPPid:\t1\n"),
        Ok((0, 1))
    );
    assert!(parse_process_identity("PPid:\t1\n").is_err());
}

#[test]
fn helper_refuses_other_users_and_other_parents() {
    let status = "Uid:\t7\t1000\t7\t7\nPPid:\t12\n";
    assert_eq!(check_own_status(Some(status)), Ok((1000, 12)));
    assert_eq!(
        check_own_status(None),
        Err(HelperRefusal::CredentialsUnavailable)
    );
    assert_eq!(
        check_own_status(Some("Uid:\t0\t0\nPPid:\t1\n")),
        Err(HelperRefusal::SystemUser)
    );
    assert_eq!(
        check_own_status(Some("Uid:\t1\t1\nPPid:\t0\n")),
        Err(HelperRefusal::ParentUnavailable)
    );
    assert_eq!(
        check_own_status(Some("PPid:\t1\n")),
        Err(HelperRefusal::UserUnavailable)
    );
    assert_eq!(check_parent_status(1000, Some(status)), Ok(()));
    assert_eq!(
        check_parent_status(1001, Some(status)),
        Err(HelperRefusal::OtherUser)
    );
    assert_eq!(
        check_parent_status(1000, None),
        Err(HelperRefusal::ParentCredentialsUnavailable)
    );
    assert_eq!(
        check_parent_executable(Some(b"/usr/bin/redunar-tauri"), false),
        Ok(())
    );
    assert_eq!(
        check_parent_executable(Some(b"/usr/bin/other"), true),
        Err(HelperRefusal::UntrustedParent)
    );
    assert_eq!(
        check_parent_executable(None, true),
        Err(HelperRefusal::ExecutableUnavailable)
    );
    assert_eq!(
        HelperRefusal::OtherUser.message(),
        "the shortcut helper and Redunar app must use the same user"
    );
}

#[test]
fn checkout_release_parent_is_trusted_only_with_adjacent_helper() {
    let parent = b"/tmp/redunar-hotkey-trust/redunar-tauri";
    assert_eq!(
        helper_beside(parent),
        Some(b"/tmp/redunar-hotkey-trust/redunar-hotkey-helper".to_vec())
    );
    assert!(trusted_parent(parent, true));
    assert!(!trusted_parent(parent, false));
}

#[test]
fn mouse_device_links_are_bounded_to_kernel_mouse_event_aliases() {
    assert!(device_link_name_matches(
        "usb-Example_Mouse-event-mouse",
        "-event-mouse"
    ));
    assert!(device_link_name_matches(
        "pci-0000:00:14.0-usb-0:2:1.0-event-mouse",
        "-event-mouse"
    ));
    assert!(!device_link_name_matches("mouse0", "-event-mouse"));
    assert!(!device_link_name_matches(
        "nested/device-event-mouse",
        "-event-mouse"
    ));
}

#[test]
fn pointer_parser_accepts_only_relative_motion_and_left_button_edges() {
    assert_eq!(
        parse_pointer_event(EV_REL, 0, 17),
        Some(PointerEvent::MotionX(17))
    );
    assert_eq!(
        parse_pointer_event(EV_REL, 1, -9),
        Some(PointerEvent::MotionY(-9))
    );
    assert_eq!(
        parse_pointer_event(EV_KEY, BTN_LEFT, 1),
        Some(PointerEvent::LeftButton(true))
    );
    assert_eq!(parse_pointer_event(EV_KEY, BTN_LEFT, 2), None);
    assert_eq!(parse_pointer_event(EV_KEY, 273, 1), None);
}

#[test]
fn motion_is_coalesced_and_bounded_before_crossing_the_socket() {
    let mut pending = PendingMotion::default();
    pending.add(PointerEvent::MotionX(3_000));
    pending.add(PointerEvent::MotionX(3_000));
    pending.add(PointerEvent::MotionY(-5_000));
    assert_eq!(pending.take(), Some((4_096, -4_096)));
    assert_eq!(pending.take(), None);
}

#[test]
fn raw_mouse_motion_gets_continuous_aspect_corrected_acceleration() {
    let slow = accelerated_pointer_motion(1, 1);
    let medium = accelerated_pointer_motion(6, 6);
    let fast = accelerated_pointer_motion(12, 12);
    assert!(slow.0 > 0);
    assert!(slow.1 > slow.0);
    assert!(medium.0 > slow.0 * 6);
    assert!(fast.0 > medium.0 * 2);
    assert_eq!(accelerated_pointer_motion(i32::MAX, 0).0, MOTION_LIMIT);
}

#[test]
fn acceleration_rounds_away_from_zero_and_keeps_the_direction() {
    assert_eq!(accelerated_pointer_motion(1, 1), (9, 14));
    assert_eq!(accelerated_pointer_motion(-1, -1), (-9, -14));
    assert_eq!(accelerated_pointer_motion(0, 0), (0, 0));
    assert_eq!(
        accelerated_pointer_motion(i32::MIN, i32::MIN),
        (-MOTION_LIMIT, -MOTION_LIMIT)
    );
}

#[test]
fn menu_state_clears_pending_input_on_every_release() {
    let now = 5;
    let mut menu = MenuCapture::closed(now);
    menu.opened(now);
    menu.pending_motion.add(PointerEvent::MotionX(4));
    menu.closed_by_release();
    assert!(!menu.open);
    assert_eq!(menu.pending_motion.take(), None);
}

#[test]
fn menu_sends_motion_and_pings_when_they_are_due() {
    let mut menu = MenuCapture::closed(0);
    menu.opened(100);
    assert_eq!(menu.pointer_event(PointerEvent::MotionX(1), 101), None);
    assert_eq!(menu.pointer_event(PointerEvent::MotionY(1), 101), None);
    assert_eq!(
        menu.pointer_event(PointerEvent::LeftButton(true), 102),
        Some(true)
    );
    assert_eq!(menu.last_input, 102);
    assert_eq!(menu.due_motion(99 + MOTION_INTERVAL), None);
    assert_eq!(menu.due_motion(100 + MOTION_INTERVAL), Some((9, 14)));
    assert_eq!(menu.due_motion(100 + MOTION_INTERVAL), None);
    menu.motion_sent(200);
    assert_eq!(menu.last_motion_sent, 200);
    assert!(!menu.ping_due(99 + MENU_PING_INTERVAL));
    assert!(menu.ping_due(100 + MENU_PING_INTERVAL));
    menu.pinged(300);
    assert_eq!(menu.last_ping, 300);
}

#[test]
fn duplicate_composite_keyboard_edges_trigger_once() {
    let mut pressed = PressedKeys::new();
    assert!(logical_press_is_new(&pressed, 66));
    pressed.insert(0, 66);
    assert!(!logical_press_is_new(&pressed, 66));
    pressed.insert(1, 66);
    pressed.remove(0, 66);
    assert!(!logical_press_is_new(&pressed, 66));
    pressed.remove(1, 66);
    assert!(logical_press_is_new(&pressed, 66));
}

#[test]
fn watchdog_closes_only_an_open_inactive_menu() {
    let now = 1_000_000_000;
    let mut menu = MenuCapture::closed(now);
    assert_eq!(
        watchdog_action(&menu, now + MENU_INACTIVITY_TIMEOUT),
        WatchdogAction::Keep
    );
    menu.opened(now);
    assert_eq!(
        watchdog_action(&menu, now + MENU_INACTIVITY_TIMEOUT - 1_000_000),
        WatchdogAction::Keep
    );
    assert_eq!(
        watchdog_action(&menu, now + MENU_INACTIVITY_TIMEOUT),
        WatchdogAction::Inactive
    );
}

#[test]
fn only_modifier_keys_may_leave_the_mouse_menu_open_for_a_chord() {
    assert!(is_modifier_key(KEY_LEFTALT));
    assert!(is_modifier_key(KEY_RIGHTSHIFT));
    assert!(!is_modifier_key(15));
    assert!(!is_modifier_key(KEY_ESC));
}

fn key(device: usize, code: u16, value: i32) -> KeyEvent {
    key_event(device, EV_KEY, code, value).expect("key event")
}

const NOTHING: KeyDecision = KeyDecision {
    close_menu: false,
    action: None,
    ends_turn: false,
};

#[test]
fn keys_trigger_bindings_with_exact_modifiers() {
    let bindings =
        read_bindings("TOGGLE Shift+Tab\nBIND Ctrl+F8 30\nSTART\n").expect("bindings");
    let mut pressed = PressedKeys::new();
    assert_eq!(key_event(0, EV_REL, 1, 1), None);
    assert_eq!(
        handle_key(&mut pressed, key(0, 66, 1), &bindings, false),
        NOTHING
    );
    handle_key(&mut pressed, key(0, 66, 0), &bindings, false);
    handle_key(&mut pressed, key(0, KEY_LEFTCTRL, 1), &bindings, false);
    assert_eq!(active_modifiers(&pressed), MOD_CONTROL);
    assert_eq!(
        handle_key(&mut pressed, key(0, 66, 1), &bindings, false).action,
        Some(HotkeyAction::Save(30))
    );
    assert_eq!(
        handle_key(&mut pressed, key(1, 66, 1), &bindings, false),
        KeyDecision {
            ends_turn: true,
            ..NOTHING
        }
    );
    assert_eq!(
        handle_key(&mut pressed, key(1, 66, 2), &bindings, false),
        NOTHING
    );
}

#[test]
fn other_keys_close_an_open_menu() {
    let bindings = read_bindings("TOGGLE Shift+Tab\nSTART\n").expect("bindings");
    let mut pressed = PressedKeys::new();
    assert_eq!(
        handle_key(&mut pressed, key(0, KEY_RIGHTSHIFT, 1), &bindings, true),
        NOTHING
    );
    assert_eq!(
        handle_key(&mut pressed, key(0, 15, 1), &bindings, true),
        KeyDecision {
            close_menu: false,
            action: Some(HotkeyAction::ToggleOverlay),
            ends_turn: false,
        }
    );
    assert_eq!(
        handle_key(&mut pressed, key(0, 30, 1), &bindings, true),
        KeyDecision {
            close_menu: true,
            action: None,
            ends_turn: false,
        }
    );
    assert_eq!(
        handle_key(&mut pressed, key(0, KEY_ESC, 1), &bindings, true),
        KeyDecision {
            close_menu: true,
            action: None,
            ends_turn: true,
        }
    );
}

#[test]
fn control_replies_and_commands() {
    assert_eq!(read_reply("OK\n"), Ok(ControlReply::Done));
    assert_eq!(read_reply("OK GRAB\n"), Ok(ControlReply::Grab));
    assert_eq!(read_reply("OK RELEASE\n"), Ok(ControlReply::Release));
    assert_eq!(
        read_reply("ERROR disk is full \n")
            .expect_err("refused")
            .message(),
        "disk is full"
    );
    assert_eq!(
        read_reply("OK").expect_err("invalid").message(),
        "Replay control returned an invalid response"
    );
    assert_eq!(save_outcome("OK\n"), Ok(()));
    assert_eq!(
        save_outcome("OK GRAB\n").expect_err("no save").message(),
        "Replay control returned an invalid save response"
    );
    assert!(save_outcome("ERROR no\n").is_err());
    assert!(keeps_menu_open(ControlReply::Done));
    assert!(!keeps_menu_open(ControlReply::Release));
    assert!(opens_menu(ControlReply::Grab).is_ok());
    assert_eq!(
        opens_menu(ControlReply::Done).expect_err("no grab").message(),
        "Replay menu returned an invalid open response"
    );
    assert_eq!(move_command(-12, 7), "MENU MOVE -12 7\n");
    assert_eq!(button_command(true), "MENU BUTTON 1\n");
    assert_eq!(button_command(false), "MENU BUTTON 0\n");
    assert_eq!(save_command(900), "SAVE 900\n");
    assert_eq!(
        control_path(1000),
        "/run/user/1000/redunar/replay-control-v1.sock"
    );
    assert_eq!(toggle_menu(true, 0), ToggleStep::Close);
    assert_eq!(toggle_menu(false, 0), ToggleStep::RejectWithoutMouse);
    assert_eq!(toggle_menu(false, 1), ToggleStep::Ask);
    assert!(is_usable_mouse(true, true, true, true));
    assert!(!is_usable_mouse(true, true, false, true));
}

#[test]
fn input_devices_are_sorted_distinct_and_limited() {
    let mut devices = InputDevices::new(2);
    assert!(devices.add(Some(b"/dev/input/event9".to_vec()), true));
    assert!(devices.add(Some(b"/dev/input/event9".to_vec()), true));
    assert!(devices.add(Some(b"/dev/other/event1".to_vec()), true));
    assert!(devices.add(Some(b"/dev/input/event1".to_vec()), false));
    assert!(devices.add(None, true));
    assert!(!devices.add(Some(b"/dev/input/event3".to_vec()), true));
    assert!(!devices.add(Some(b"/dev/input/event4".to_vec()), true));
    let limited = devices.into_limited();
    assert_eq!(
        limited,
        vec![
            (b"/dev/input/event3".to_vec(), ()),
            (b"/dev/input/event4".to_vec(), ())
        ]
    );
    let mut keyboards = InputDevices::new(1);
    keyboards.add(Some(b"/dev/input/event7".to_vec()), true);
    keyboards.add(Some(b"/dev/input/event2".to_vec()), true);
    assert_eq!(keyboards.into_devices().len(), 2);
}
