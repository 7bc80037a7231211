//! Decisions of the desktop shell: the floating widget, the tray menu, the
//! hotkeys, window closing, and the settings edits that commands make.
use vstd::prelude::*;
use crate::storage::AppConfig;
use crate::text::{append_str, chars_of, string_of, str_equal, trim, trim_chars};

verus! {

/// Whether the floating widget stays on screen: it is shown and does not
/// hide itself between dictations.
pub fn widget_visible(config: &AppConfig) -> (r: bool)
    ensures
        r == (config.show_widget && !config.auto_hide_widget),
{
    config.show_widget && !config.auto_hide_widget
}

/// Whether the widget moves to the mouse pointer when recording starts.
pub fn widget_follows_cursor(config: &AppConfig) -> (r: bool)
    ensures
        r == (config.follow_cursor && !config.lock_widget_position),
{
    config.follow_cursor && !config.lock_widget_position
}

/// Where the widget goes when it follows the pointer at (`x`, `y`): a little
/// left of and below the pointer, never closer than 8 points to the top-left
/// corner of the screen.
pub fn widget_position_near(x: i32, y: i32) -> (r: (i32, i32))
    requires
        x >= i32::MIN + 110,
        y <= i32::MAX - 24,
    ensures
        r.0 == if x - 110 > 8 { x - 110 } else { 8 },
        r.1 == if y + 24 > 8 { y + 24 } else { 8 },
        r.0 >= 8 && r.1 >= 8,
{
    let a = x - 110;
    let b = y + 24;
    (if a > 8 { a } else { 8 }, if b > 8 { b } else { 8 })
}

/// The widget's resting place on a screen of `screen_w` by `screen_h`
/// pixels: centred horizontally, 32 pixels above the bottom edge, clamped at
/// the screen's top-left corner.
pub fn widget_home_position(screen_w: u32, screen_h: u32, widget_w: u32, widget_h: u32) -> (r: (
    u32,
    u32,
))
    requires
        widget_h + 32 <= u32::MAX,
    ensures
        r.0 == (if screen_w >= widget_w { screen_w - widget_w } else { 0 }) / 2,
        r.1 == if screen_h >= widget_h + 32 { screen_h - widget_h - 32 } else { 0 },
{
    let free_w = if screen_w >= widget_w { screen_w - widget_w } else { 0 };
    let needed = widget_h + 32;
    let y = if screen_h >= needed { screen_h - needed } else { 0 };
    (free_w / 2, y)
}

/// What a hotkey event asks of the recorder.
#[derive(Clone, Copy, Debug, PartialEq, Eq, Structural)]
pub enum RecorderCommand {
    Start,
    Stop,
    Nothing,
}

/// The answer to a global hotkey event.  While shortcuts are paused nothing
/// happens.  The toggle shortcut starts or stops recording on press; any
/// other shortcut records while it is held.
pub fn hotkey_command(paused: bool, is_toggle: bool, pressed: bool, recording: bool) -> (r:
    RecorderCommand)
    ensures
        r == if paused {
            RecorderCommand::Nothing
        } else if is_toggle {
            if !pressed {
                RecorderCommand::Nothing
            } else if recording {
                RecorderCommand::Stop
            } else {
                RecorderCommand::Start
            }
        } else if pressed {
            RecorderCommand::Start
        } else {
            RecorderCommand::Stop
        },
{
    if paused {
        RecorderCommand::Nothing
    } else if is_toggle {
        if !pressed {
            RecorderCommand::Nothing
        } else if recording {
            RecorderCommand::Stop
        } else {
            RecorderCommand::Start
        }
    } else if pressed {
        RecorderCommand::Start
    } else {
        RecorderCommand::Stop
    }
}

/// What a tray menu item does.
#[derive(Clone, Copy, Debug, PartialEq, Eq, Structural)]
pub enum TrayCommand {
    OpenDashboard,
    ToggleRecording,
    Quit,
    Ignore,
}

/// The tray menu item with id `id`.
pub fn tray_command(id: &str) -> (r: TrayCommand)
    ensures
        r == if id@ == "open"@ {
            TrayCommand::OpenDashboard
        } else if id@ == "record"@ {
            TrayCommand::ToggleRecording
        } else if id@ == "quit"@ {
            TrayCommand::Quit
        } else {
            TrayCommand::Ignore
        },
{
    if str_equal(id, "open") {
        TrayCommand::OpenDashboard
    } else if str_equal(id, "record") {
        TrayCommand::ToggleRecording
    } else if str_equal(id, "quit") {
        TrayCommand::Quit
    } else {
        TrayCommand::Ignore
    }
}

/// The recorder command of the tray's record item: stop when recording,
/// start otherwise.
pub fn toggle_command(recording: bool) -> (r: RecorderCommand)
    ensures
        r == if recording {
            RecorderCommand::Stop
        } else {
            RecorderCommand::Start
        },
{
    if recording {
        RecorderCommand::Stop
    } else {
        RecorderCommand::Start
    }
}

/// Whether the application was launched to start in the background: one of
/// its arguments is "--hidden" or "--minimized".
pub fn starts_hidden(args: &[String]) -> (r: bool)
    ensures
        r == exists|i: int|
            0 <= i < args@.len() && (args@[i]@ == "--hidden"@ || args@[i]@ == "--minimized"@),
{
    let mut i: usize = 0;
    while i < args.len()
        invariant
            i <= args@.len(),
            forall|j: int|
                0 <= j < i ==> !(#[trigger] args@[j]@ == "--hidden"@ || args@[j]@ == "--minimized"@),
        decreases args@.len() - i,
    {
        if str_equal(args[i].as_str(), "--hidden") || str_equal(args[i].as_str(), "--minimized") {
            return true;
        }
        i += 1;
    }
    false
}

/// What closing the dashboard does.
#[derive(Clone, Copy, Debug, PartialEq, Eq, Structural)]
pub enum CloseCommand {
    /// Hide the dashboard; the application keeps running in the tray.
    Hide,
    /// Ask the dashboard to explain that the application keeps running.
    ExplainFirst,
}

/// Closing the dashboard hides it once the user has seen the notice about
/// the tray, and asks the dashboard to show that notice otherwise.
pub fn close_command(config: &AppConfig) -> (r: CloseCommand)
    ensures
        r == if config.close_notice_seen {
            CloseCommand::Hide
        } else {
            CloseCommand::ExplainFirst
        },
{
    if config.close_notice_seen {
        CloseCommand::Hide
    } else {
        CloseCommand::ExplainFirst
    }
}

/// Records that the user has seen the notice about the tray.
pub fn acknowledge_close_notice(config: &mut AppConfig)
    ensures
        *final(config) == (AppConfig { close_notice_seen: true, ..*old(config) }),
{
    config.close_notice_seen = true;
}

/// Selects a local model: the model becomes the selected one and
/// transcription switches to local mode.
pub fn select_model(config: &mut AppConfig, model_id: String)
    ensures
        final(config).model == model_id,
        final(config).transcription_mode@ == "local"@,
        *final(config) == (AppConfig {
            model: final(config).model,
            transcription_mode: final(config).transcription_mode,
            ..*old(config)
        }),
{
    config.model = model_id;
    config.transcription_mode = "local".to_owned();
}

/// The API key to store for what the user entered: the text without
/// surrounding whitespace, or none (remove the stored key) when that is
/// empty.
pub fn api_key_to_store(entered: &str) -> (r: Option<String>)
    ensures
        match r {
            Some(k) => k@ == trim(entered@) && k@.len() > 0,
            None => trim(entered@).len() == 0,
        },
{
    let v = chars_of(entered);
    let t = trim_chars(v.as_slice());
    if t.len() == 0 {
        None
    } else {
        Some(string_of(t.as_slice()))
    }
}

/// Records whether an API key is configured, after the key store was
/// updated for what the user entered.
pub fn note_api_key(config: &mut AppConfig, entered: &str)
    ensures
        final(config).groq_api_key_configured == (trim(entered@).len() > 0),
        *final(config) == (AppConfig {
            groq_api_key_configured: final(config).groq_api_key_configured,
            ..*old(config)
        }),
{
    let v = chars_of(entered);
    let t = trim_chars(v.as_slice());
    config.groq_api_key_configured = t.len() != 0;
}

/// The file name of a history export made on `date` (formatted as
/// YYYY-MM-DD).
pub fn export_file_name(date: &str) -> (r: String)
    ensures
        r@ == "Bee History "@ + date@ + ".json"@,
{
    let mut r = "Bee History ".to_owned();
    append_str(&mut r, date);
    append_str(&mut r, ".json");
    r
}

} // verus!
