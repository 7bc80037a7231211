use bee::shortcuts::modifier_mask_lowered;
use bee::shortcuts::{
    classify_tap_event, configured_shortcuts, modifier_mask, on_input_event, portable_shortcut,
    shortcut_plan, tap_event_mask, InputEvent, KeyAction, FLAG_COMMAND, FLAG_CONTROL, FLAG_OPTION,
    FLAG_SECONDARY_FN, FLAG_SHIFT,
};
use bee::storage::{AppConfig, Platform};

#[test]
fn recognizes_modifier_only_shortcuts() {
    assert_eq!(modifier_mask("Fn / Globe"), FLAG_SECONDARY_FN);
    assert_eq!(modifier_mask("⌃ ⌥"), FLAG_CONTROL | FLAG_OPTION);
    assert_eq!(
        modifier_mask("Control + Option"),
        FLAG_CONTROL | FLAG_OPTION
    );
}

#[test]
fn leaves_keyed_shortcuts_to_global_hotkey() {
    assert_eq!(modifier_mask("⌘ ⇧ R"), 0);
}

#[test]
fn modifier_mask_reads_words_and_symbols() {
    assert_eq!(modifier_mask("⌘ ⇧"), FLAG_COMMAND | FLAG_SHIFT);
    assert_eq!(modifier_mask("CMD + SHIFT"), FLAG_COMMAND | FLAG_SHIFT);
    assert_eq!(modifier_mask("Ctrl + Alt"), FLAG_CONTROL | FLAG_OPTION);
    assert_eq!(modifier_mask(""), 0);
    assert_eq!(modifier_mask("Ctrl + Win"), 0);
}

#[test]
fn portable_shortcut_spells_out_symbols() {
    assert_eq!(portable_shortcut("⌘ ⇧ R"), Some("Command+Shift+R".to_string()));
    assert_eq!(portable_shortcut("  ⌃   ⌥  K "), Some("Control+Alt+K".to_string()));
    assert_eq!(portable_shortcut("Ctrl + Alt"), Some("Ctrl+++Alt".to_string()));
}

#[test]
fn portable_shortcut_refuses_fn_and_blank() {
    assert_eq!(portable_shortcut("Fn / Globe"), None);
    assert_eq!(portable_shortcut("   "), None);
    assert_eq!(portable_shortcut(""), None);
}

fn config_with(ptt: &str, toggle: Option<&str>) -> AppConfig {
    let mut c = AppConfig::default_for(Platform::Linux);
    c.push_to_talk_key = ptt.to_string();
    c.toggle_key = toggle.map(|t| t.to_string());
    c
}

#[test]
fn configured_shortcuts_skip_duplicates() {
    let c = config_with("⌘ R", Some("Command R"));
    assert_eq!(configured_shortcuts(&c), vec!["Command+R".to_string()]);
    let c = config_with("⌘ R", Some("⌥ T"));
    assert_eq!(
        configured_shortcuts(&c),
        vec!["Command+R".to_string(), "Alt+T".to_string()]
    );
    let c = config_with("Fn", None);
    assert!(configured_shortcuts(&c).is_empty());
}

#[test]
fn shortcut_plan_keeps_builtin_and_respects_pause() {
    let previous = config_with("CommandOrControl+Shift+Space", Some("⌥ T"));
    let mut next = config_with("⌘ R", None);
    let plan = shortcut_plan(&previous, &next);
    assert_eq!(plan.unregister, vec!["Alt+T".to_string()]);
    assert_eq!(plan.register, vec!["Command+R".to_string()]);
    next.shortcuts_paused = true;
    let plan = shortcut_plan(&previous, &next);
    assert!(plan.register.is_empty());
}

#[test]
fn push_to_talk_begins_and_ends_once() {
    let mut held = false;
    let key = "⌃ ⌥";
    let both = FLAG_CONTROL | FLAG_OPTION;
    assert_eq!(on_input_event(&mut held, InputEvent::Flags(FLAG_CONTROL), key), KeyAction::Nothing);
    assert_eq!(on_input_event(&mut held, InputEvent::Flags(both), key), KeyAction::BeginRecording);
    assert!(held);
    assert_eq!(on_input_event(&mut held, InputEvent::Flags(both | FLAG_SHIFT), key), KeyAction::Nothing);
    assert_eq!(on_input_event(&mut held, InputEvent::Cancel, key), KeyAction::CancelRecording);
    assert!(held);
    assert_eq!(on_input_event(&mut held, InputEvent::Flags(FLAG_OPTION), key), KeyAction::EndRecording);
    assert!(!held);
}

#[test]
fn keyed_push_to_talk_never_fires() {
    let mut held = false;
    assert_eq!(
        on_input_event(&mut held, InputEvent::Flags(u64::MAX), "⌘ ⇧ R"),
        KeyAction::Nothing
    );
    assert!(!held);
}

#[test]
fn tap_events_are_classified() {
    assert_eq!(classify_tap_event(12, true, true, 7, 0), Some(InputEvent::Flags(7)));
    assert_eq!(classify_tap_event(10, true, true, 0, 53), Some(InputEvent::Cancel));
    assert_eq!(classify_tap_event(10, true, true, 0, 54), None);
    assert_eq!(classify_tap_event(12, false, true, 7, 0), None);
    assert_eq!(tap_event_mask(), 0x1400);
}

#[test]
fn starts_and_stops_alternate() {
    let key = "Fn";
    let events = [
        InputEvent::Flags(FLAG_SECONDARY_FN),
        InputEvent::Flags(FLAG_SECONDARY_FN | FLAG_SHIFT),
        InputEvent::Cancel,
        InputEvent::Flags(0),
        InputEvent::Flags(0),
        InputEvent::Flags(FLAG_SECONDARY_FN),
        InputEvent::Flags(FLAG_SHIFT),
    ];
    let mut held = false;
    let mut edges = Vec::new();
    for e in events {
        match on_input_event(&mut held, e, key) {
            KeyAction::BeginRecording => edges.push(true),
            KeyAction::EndRecording => edges.push(false),
            _ => {}
        }
    }
    assert_eq!(edges, vec![true, false, true, false]);
    assert!(!held);
}

#[test]
fn mask_from_given_lowercase_form() {
    assert_eq!(modifier_mask_lowered("CONTROL + OPTION", "control + option"), FLAG_CONTROL | FLAG_OPTION);
    assert_eq!(modifier_mask_lowered("Fn", "FN"), 0);
    assert_eq!(modifier_mask_lowered("⌘", "⌘"), FLAG_COMMAND);
    assert_eq!(modifier_mask("CONTROL + OPTION"), modifier_mask("control + option"));
}

#[test]
fn starts_and_stops_follow_held_changes() {
    let both = FLAG_CONTROL | FLAG_OPTION;
    let flags = [0, FLAG_CONTROL, both, both | FLAG_SHIFT, FLAG_OPTION, 0, both];
    let expected = [
        KeyAction::Nothing,
        KeyAction::Nothing,
        KeyAction::BeginRecording,
        KeyAction::Nothing,
        KeyAction::EndRecording,
        KeyAction::Nothing,
        KeyAction::BeginRecording,
    ];
    let mut held = false;
    for (f, want) in flags.iter().zip(expected.iter()) {
        assert_eq!(on_input_event(&mut held, InputEvent::Flags(*f), "Control + Option"), *want);
    }
    assert!(held);
    let mut held = false;
    for f in flags {
        assert_eq!(on_input_event(&mut held, InputEvent::Flags(f), "R"), KeyAction::Nothing);
    }
    assert!(!held);
}
