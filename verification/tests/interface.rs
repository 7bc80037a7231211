use bee::interface::{
    acknowledge_close_notice, api_key_to_store, close_command, export_file_name, hotkey_command,
    note_api_key, select_model, starts_hidden, toggle_command, tray_command,
    widget_follows_cursor, widget_home_position, widget_position_near, widget_visible,
    CloseCommand, RecorderCommand, TrayCommand,
};
use bee::storage::{AppConfig, Platform};

#[test]
fn widget_rules() {
    let mut c = AppConfig::default_for(Platform::MacOs);
    assert!(widget_visible(&c));
    assert!(widget_follows_cursor(&c));
    c.auto_hide_widget = true;
    assert!(!widget_visible(&c));
    c.lock_widget_position = true;
    assert!(!widget_follows_cursor(&c));
    assert_eq!(widget_position_near(500, 300), (390, 324));
    assert_eq!(widget_position_near(10, -100), (8, 8));
    assert_eq!(widget_home_position(1920, 1080, 220, 50), (850, 998));
    assert_eq!(widget_home_position(100, 40, 220, 50), (0, 0));
}

#[test]
fn hotkeys_and_tray() {
    assert_eq!(hotkey_command(true, false, true, false), RecorderCommand::Nothing);
    assert_eq!(hotkey_command(false, true, true, false), RecorderCommand::Start);
    assert_eq!(hotkey_command(false, true, true, true), RecorderCommand::Stop);
    assert_eq!(hotkey_command(false, true, false, true), RecorderCommand::Nothing);
    assert_eq!(hotkey_command(false, false, true, true), RecorderCommand::Start);
    assert_eq!(hotkey_command(false, false, false, false), RecorderCommand::Stop);
    assert_eq!(tray_command("open"), TrayCommand::OpenDashboard);
    assert_eq!(tray_command("record"), TrayCommand::ToggleRecording);
    assert_eq!(tray_command("quit"), TrayCommand::Quit);
    assert_eq!(tray_command("other"), TrayCommand::Ignore);
    assert_eq!(toggle_command(true), RecorderCommand::Stop);
    assert_eq!(toggle_command(false), RecorderCommand::Start);
}

#[test]
fn launch_and_close() {
    let args: Vec<String> = vec!["bee".into(), "--minimized".into()];
    assert!(starts_hidden(&args));
    let args: Vec<String> = vec!["bee".into(), "--hide".into()];
    assert!(!starts_hidden(&args));
    let mut c = AppConfig::default_for(Platform::Linux);
    assert_eq!(close_command(&c), CloseCommand::ExplainFirst);
    acknowledge_close_notice(&mut c);
    assert_eq!(close_command(&c), CloseCommand::Hide);
}

#[test]
fn settings_edits() {
    let mut c = AppConfig::default_for(Platform::Linux);
    c.transcription_mode = "cloud".into();
    select_model(&mut c, "tiny-en".into());
    assert_eq!(c.model, "tiny-en");
    assert_eq!(c.transcription_mode, "local");
    assert_eq!(api_key_to_store("  gsk_1 \n"), Some("gsk_1".to_string()));
    assert_eq!(api_key_to_store("   "), None);
    note_api_key(&mut c, " k ");
    assert!(c.groq_api_key_configured);
    note_api_key(&mut c, "");
    assert!(!c.groq_api_key_configured);
    assert_eq!(export_file_name("2024-05-01"), "Bee History 2024-05-01.json");
}
