use bee::pattern::{replace_case_insensitive, replacement_or_original};
use bee::storage::{
    apply_dictionary, clean_transcript, find_entry, recommended_hotkey, remove_dictionary_entry,
    remove_history, apply_rewrite, history_item, upsert_entry, AppConfig, DictionaryEntry,
    HistoryItem, PersistentData, Platform, Store, UNIT_GAIN_BITS,
};

fn entry(id: &str, original: &str, replacement: &str) -> DictionaryEntry {
    DictionaryEntry {
        id: id.into(),
        original: original.into(),
        replacement: replacement.into(),
        created_at: 0,
    }
}

#[test]
fn dictionary_replacements_are_case_insensitive() {
    let entries = vec![DictionaryEntry {
        id: "1".into(),
        original: "next js".into(),
        replacement: "Next.js".into(),
        created_at: 0,
    }];
    assert_eq!(
        apply_dictionary("Use NEXT JS today".into(), &entries),
        "Use Next.js today"
    );
    assert_eq!(replace_case_insensitive("CAFÉ", "café", "$HOME"), "$HOME");
}

#[test]
fn cleanup_removes_fillers_and_adds_punctuation() {
    assert_eq!(
        clean_transcript("um, ship the patch", true, true),
        "Ship the patch."
    );
    assert_eq!(
        clean_transcript("Uh I like Rust", true, true),
        "I like Rust."
    );
}

#[test]
fn cleanup_collapses_whitespace() {
    assert_eq!(clean_transcript("  hello \t  world \n", false, false), "hello world");
    assert_eq!(clean_transcript("   ", true, true), "");
    assert_eq!(clean_transcript("done!", false, true), "Done!");
    assert_eq!(clean_transcript("why?", false, true), "Why?");
    assert_eq!(clean_transcript("um uh erm", true, true), "");
    assert_eq!(clean_transcript("ümlaut", false, true), "Ümlaut.");
    assert_eq!(clean_transcript("ßig", false, true), "SSig.");
}

#[test]
fn cleanup_keeps_fillers_when_asked() {
    assert_eq!(clean_transcript("um, ship it", false, false), "um, ship it");
    assert_eq!(clean_transcript("you know, I mean it", true, false), "it");
}

#[test]
fn dictionary_applies_rules_in_order_and_skips_empty() {
    let entries = vec![entry("1", "", "x"), entry("2", "a.b", "c"), entry("3", "C", "d")];
    assert_eq!(apply_dictionary("A.B and axb".into(), &entries), "d and axb");
    assert_eq!(apply_dictionary("unchanged".into(), &[]), "unchanged");
}

#[test]
fn replace_case_insensitive_treats_needle_literally() {
    assert_eq!(replace_case_insensitive("1+1=2, 1+1", "1+1", "two"), "two=2, two");
    assert_eq!(replace_case_insensitive("abc", "", "z"), "abc");
}

#[test]
fn failed_substitution_keeps_text() {
    let err = regex::Regex::new("(").unwrap_err();
    assert_eq!(replacement_or_original("keep", Err(err)), "keep");
    assert_eq!(replacement_or_original("keep", Ok("new".to_string())), "new");
}

#[test]
fn upsert_updates_existing_rule_ignoring_ascii_case() {
    let mut d = vec![entry("a", "Next JS", "Next.js"), entry("b", "rust", "Rust")];
    let r = upsert_entry(&mut d, "next js".into(), "NextJS".into(), "z".into(), 9);
    assert_eq!(r.id, "a");
    assert_eq!(r.original, "Next JS");
    assert_eq!(r.replacement, "NextJS");
    assert_eq!(d.len(), 2);
    assert_eq!(d[0].replacement, "NextJS");
    assert_eq!(find_entry(&d, "RUST"), Some(1));
    assert_eq!(find_entry(&d, "ruSt "), None);
}

#[test]
fn upsert_appends_new_rule() {
    let mut d = vec![entry("a", "café", "cafe")];
    let r = upsert_entry(&mut d, "CAFÉ".into(), "Café".into(), "z".into(), 9);
    assert_eq!(r.id, "z");
    assert_eq!(r.created_at, 9);
    assert_eq!(d.len(), 2);
    assert_eq!(d[1].original, "CAFÉ");
}

#[test]
fn store_upsert_gives_fresh_ids() {
    let mut store = Store {
        path: std::path::PathBuf::from("bee.json"),
        data: PersistentData::default_for(Platform::MacOs),
    };
    let first = store.upsert_dictionary("k8s".into(), "Kubernetes".into(), [0; 16], 1_000);
    assert_eq!(first.id, "00000000-0000-4000-8000-000000000000");
    assert_eq!(first.created_at, 1_000);
    let again = store.upsert_dictionary("K8S".into(), "kubernetes".into(), [0xff; 16], 2_000);
    assert_eq!(again.id, first.id);
    assert_eq!(again.created_at, 1_000);
    assert_eq!(store.data.dictionary.len(), 1);
    assert_eq!(store.data.dictionary[0].replacement, "kubernetes");
    let other = store.upsert_dictionary("gh".into(), "GitHub".into(), [0xff; 16], 3_000);
    assert_eq!(other.id, "ffffffff-ffff-4fff-bfff-ffffffffffff");
    assert_eq!(other.created_at, 3_000);
    assert_ne!(other.id, first.id);
    assert_eq!(store.data.dictionary.len(), 2);
}

#[test]
fn defaults_follow_the_platform() {
    assert_eq!(recommended_hotkey(Platform::MacOs), "Fn / Globe");
    assert_eq!(recommended_hotkey(Platform::Windows), "Ctrl + Win");
    assert_eq!(recommended_hotkey(Platform::Linux), "Ctrl + Alt");
    let c = AppConfig::default_for(Platform::Windows);
    assert_eq!(c.push_to_talk_key, "Ctrl + Win");
    assert_eq!(c.model, "base-en");
    assert_eq!(c.theme, "black");
    assert!(c.dictionary_enabled);
    assert_eq!(f32::from_bits(c.input_gain_bits), 1.0);
    assert_eq!(UNIT_GAIN_BITS, 1.0f32.to_bits());
}

fn item(id: &str, text: &str) -> HistoryItem {
    HistoryItem {
        id: id.into(),
        text: text.into(),
        raw_text: text.into(),
        timestamp: 0,
        word_count: 1,
        duration_seconds_bits: 0,
        transcription_ms: 5,
        model: "Base (English)".into(),
        source: "local".into(),
    }
}

#[test]
fn history_removal_keeps_order() {
    let mut h = vec![item("a", "1"), item("b", "2"), item("a", "3"), item("c", "4")];
    remove_history(&mut h, "a");
    let ids: Vec<&str> = h.iter().map(|x| x.id.as_str()).collect();
    assert_eq!(ids, vec!["b", "c"]);
    remove_history(&mut h, "zzz");
    assert_eq!(h.len(), 2);
}

#[test]
fn dictionary_removal_by_id() {
    let mut d = vec![entry("a", "x", "y"), entry("b", "p", "q")];
    remove_dictionary_entry(&mut d, "a");
    assert_eq!(d.len(), 1);
    assert_eq!(d[0].id, "b");
}

#[test]
fn rewrite_updates_text_and_word_count() {
    let mut h = vec![item("a", "one"), item("b", "two")];
    let r = apply_rewrite(&mut h, "b", "  three  four five ".into()).unwrap();
    assert_eq!(r.word_count, 3);
    assert_eq!(h[1].text, "  three  four five ");
    assert_eq!(h[1].word_count, 3);
    assert_eq!(h[0].text, "one");
    let missing = apply_rewrite(&mut h, "zz", "x".into());
    assert_eq!(missing.err(), Some("Transcription not found".to_string()));
    assert_eq!(history_item(&h, "a").unwrap().text, "one");
    assert!(history_item(&h, "q").is_err());
}

#[test]
fn new_dictations_go_first() {
    let mut d = PersistentData::default_for(Platform::Linux);
    d.record(item("a", "1"));
    d.record(item("b", "2"));
    assert_eq!(d.history[0].id, "b");
    assert_eq!(d.history[1].id, "a");
}

#[test]
fn plain_cleanup_is_idempotent() {
    for text in ["  a  b\tc ", "", "x", " \u{2003}spaced\u{a0}out\n"] {
        let once = clean_transcript(text, false, false);
        assert_eq!(clean_transcript(&once, false, false), once);
    }
}

#[test]
fn distinct_originals_stay_distinct() {
    let mut d = Vec::new();
    for (o, r) in [("Foo", "1"), ("bar", "2"), ("FOO", "3"), ("Bar", "4"), ("baz", "5")] {
        upsert_entry(&mut d, o.into(), r.into(), o.into(), 0);
    }
    assert_eq!(d.len(), 3);
    for i in 0..d.len() {
        for j in 0..d.len() {
            if i != j {
                assert!(!d[i].original.eq_ignore_ascii_case(&d[j].original));
            }
        }
    }
    let i = find_entry(&d, "foo").unwrap();
    assert_eq!(d[i].replacement, "3");
}

#[test]
fn filler_pattern_is_accepted_and_checked_cleanup_runs() {
    assert!(bee::storage::filler_pattern_builds());
    assert_eq!(
        bee::storage::try_clean_transcript("um, ship it", true, true),
        Some("Ship it.".to_string())
    );
    assert_eq!(
        bee::storage::try_clean_transcript(" a  b ", false, false),
        Some("a b".to_string())
    );
}

#[test]
fn punctuation_uses_the_given_uppercase() {
    let text: Vec<char> = "ßig deal".chars().collect();
    let out: String = bee::storage::punctuate(&text, "SS").into_iter().collect();
    assert_eq!(out, "SSig deal.");
    let text: Vec<char> = "wow!".chars().collect();
    let out: String = bee::storage::punctuate(&text, "W").into_iter().collect();
    assert_eq!(out, "Wow!");
    assert!(bee::storage::punctuate(&[], "X").is_empty());
}

#[test]
fn punctuated_cleanup_is_idempotent_on_examples() {
    for text in ["hello world", "  why not ", "done!", "élan vital"] {
        let once = clean_transcript(text, false, true);
        assert_eq!(clean_transcript(&once, false, true), once);
    }
}

#[test]
fn fresh_ids_are_hyphenated_lowercase_hex() {
    let random = [70, 235, 208, 238, 14, 109, 67, 201, 185, 13, 204, 195, 90, 145, 63, 62];
    assert_eq!(bee::storage::fresh_id(random), "46ebd0ee-0e6d-43c9-b90d-ccc35a913f3e");
    assert_eq!(bee::storage::fresh_id([0x5a; 16]), "5a5a5a5a-5a5a-4a5a-9a5a-5a5a5a5a5a5a");
    let id = bee::storage::fresh_id(uuid::Uuid::new_v4().into_bytes());
    assert_eq!(id.len(), 36);
    for (i, c) in id.chars().enumerate() {
        if [8, 13, 18, 23].contains(&i) {
            assert_eq!(c, '-');
        } else {
            assert!(c.is_ascii_digit() || ('a'..='f').contains(&c));
        }
    }
    assert_eq!(id.as_bytes()[14], b'4');
    assert!(b"89ab".contains(&id.as_bytes()[19]));
}
