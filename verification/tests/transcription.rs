use bee::storage::{AppConfig, Platform};
use bee::transcription::{
    cloud_language_field, engine_kind, enhance_system_prompt, needs_engine_load, rewrite_reply,
    whisper_language, whisper_prompt, EngineKind,
};
use bee::updates::{update_info, update_info_without_feed};

#[test]
fn engine_choices() {
    assert_eq!(engine_kind("parakeet-v3"), EngineKind::Parakeet);
    assert_eq!(engine_kind("base-en"), EngineKind::Whisper);
    assert!(needs_engine_load(None, "base-en"));
    assert!(needs_engine_load(Some("tiny-en"), "base-en"));
    assert!(!needs_engine_load(Some("base-en"), "base-en"));
}

#[test]
fn whisper_options() {
    assert_eq!(whisper_language("base-en", "fr"), Some("en".to_string()));
    assert_eq!(whisper_language("large-v3", "auto"), None);
    assert_eq!(whisper_language("large-v3", "de"), Some("de".to_string()));
    assert_eq!(whisper_language("en", "auto"), None);
    assert_eq!(whisper_prompt("  "), None);
    assert_eq!(whisper_prompt(" Use Oxford commas "), Some(" Use Oxford commas ".to_string()));
    let mut c = AppConfig::default_for(Platform::Linux);
    assert_eq!(cloud_language_field(&c), None);
    c.cloud_language = "es".into();
    assert_eq!(cloud_language_field(&c), Some("es".to_string()));
}

#[test]
fn rewrite_prompts() {
    let p = enhance_system_prompt(" ", "enhance");
    assert!(p.starts_with("Rewrite the user's dictated text"));
    assert!(!p.contains("User preferences"));
    let p = enhance_system_prompt("be brief", "polish");
    assert!(p.starts_with("Polish the user's dictated text"));
    assert!(p.ends_with("\nUser preferences: be brief"));
    assert_eq!(rewrite_reply("\n  done. \t"), "done.");
}

#[test]
fn update_reports() {
    let info = update_info("1.2.0".into(), "1.3.0".into(), "n".into(), Some("u".into())).unwrap();
    assert!(info.available);
    assert_eq!(info.latest_version, "1.3.0");
    assert_eq!(info.download_url, Some("u".to_string()));
    let info = update_info("1.3.0".into(), "1.3.0".into(), String::new(), None).unwrap();
    assert!(!info.available);
    let info = update_info("1.3.0".into(), "1.3.0-beta.1".into(), String::new(), None).unwrap();
    assert!(!info.available);
    assert!(update_info("1.3.0".into(), "v1".into(), String::new(), None).is_err());
    let none = update_info_without_feed("0.1.0".into());
    assert!(!none.available);
    assert_eq!(none.latest_version, "0.1.0");
    assert_eq!(none.notes, "This local build has no release feed configured.");
}
