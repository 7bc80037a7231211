use bee::session::{paste_failure_message, text_after_rewrite, try_finish_transcript};
use bee::session::{
    after_dictation, finish_transcript, history_item_with, history_model_name, long_enough,
    missing_model_message, new_history_item, uses_cloud, word_stats, DAY_MS,
};
use bee::storage::{AppConfig, DictionaryEntry, HistoryItem, Platform};

fn config() -> AppConfig {
    AppConfig::default_for(Platform::Linux)
}

#[test]
fn sample_threshold() {
    assert!(!long_enough(1599));
    assert!(long_enough(1600));
}

#[test]
fn transcript_is_finished_with_dictionary() {
    let mut c = config();
    let dict = vec![DictionaryEntry {
        id: "1".into(),
        original: "rust".into(),
        replacement: "Rust".into(),
        created_at: 0,
    }];
    assert_eq!(finish_transcript("um, i like rust", &c, &dict).unwrap(), "I like Rust.");
    c.dictionary_enabled = false;
    assert_eq!(finish_transcript("um, i like rust", &c, &dict).unwrap(), "I like rust.");
    assert_eq!(
        finish_transcript("  um  ", &c, &dict).unwrap_err(),
        "No speech was recognized"
    );
}

#[test]
fn records_describe_the_dictation() {
    let c = config();
    let item = history_item_with("id".into(), 7, "a b  c".into(), "raw".into(), 3, 40, &c);
    assert_eq!(item.word_count, 3);
    assert_eq!(item.model, "Base (English)");
    assert_eq!(item.source, "local");
    assert_eq!(item.timestamp, 7);
    let fresh = new_history_item("x".into(), "x".into(), 0, 1, &c, [0x11; 16], 42);
    assert_eq!(fresh.id, "11111111-1111-4111-9111-111111111111");
    assert_eq!(fresh.timestamp, 42);
    assert_eq!(fresh.text, "x");
    assert_eq!(history_model_name("whatever"), "Cloud Whisper");
}

#[test]
fn routing_and_messages() {
    let mut c = config();
    assert!(!uses_cloud(&c));
    c.transcription_mode = "cloud".into();
    assert!(uses_cloud(&c));
    assert_eq!(missing_model_message("tiny-en"), "Model tiny-en is not downloaded");
    let a = after_dictation(&c);
    assert!(a.paste && !a.hide_widget);
    c.copy_to_clipboard = true;
    c.auto_hide_widget = true;
    let a = after_dictation(&c);
    assert!(!a.paste && a.hide_widget);
}

fn at(ts: i64, words: usize) -> HistoryItem {
    HistoryItem {
        id: String::new(),
        text: String::new(),
        raw_text: String::new(),
        timestamp: ts,
        word_count: words,
        duration_seconds_bits: 0,
        transcription_ms: 0,
        model: String::new(),
        source: String::new(),
    }
}

#[test]
fn stats_windows() {
    let now = 1_000_000_000_000;
    let items = vec![at(now - 10, 5), at(now - DAY_MS - 1, 7), at(now - 8 * DAY_MS, 11)];
    let s = word_stats(&items, now);
    assert_eq!(s.total_words, 23);
    assert_eq!(s.total_sessions, 3);
    assert_eq!(s.today_words, 5);
    assert_eq!(s.week_words, 12);
    let s = word_stats(&[], now);
    assert_eq!((s.total_words, s.today_words, s.week_words), (0, 0, 0));
}

#[test]
fn checked_finish_and_rewrite_choice() {
    let c = config();
    assert_eq!(
        try_finish_transcript("uh hello", &c, &[]),
        Some(Ok("Hello.".to_string()))
    );
    assert_eq!(text_after_rewrite("a".into(), Ok("b".into())), "b");
    assert_eq!(text_after_rewrite("a".into(), Err("x".into())), "a");
}

#[test]
fn paste_failure_names_the_error() {
    assert_eq!(
        paste_failure_message("no access"),
        "Text was copied, but could not be pasted. Grant Accessibility permission: no access"
    );
}
