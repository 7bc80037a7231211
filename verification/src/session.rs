//! The steps of a dictation session between the end of a recording and the
//! pasted text: checks on the capture, transcript finishing, the history
//! record, and the statistics shown on the dashboard.
use vstd::prelude::*;
use crate::models::{catalog_entry, definition};
use crate::pattern::regex_builds;
use crate::storage::{
    filler_pattern_builds, fillers_supported, FILLER_PATTERN,
    apply_dictionary, clean_transcript, cleaned, dictionary_applied, fresh_id,
    AppConfig, DictionaryEntry, HistoryItem,
};
use crate::text::{append_str, chars_of, count_words, str_equal, trim, trim_chars, words};

verus! {

/// The fewest samples (a tenth of a second at 16 kHz) a recording must have
/// to be transcribed.
pub const MIN_SAMPLES: usize = 1600;

/// Whether a recording with `len` samples is long enough to transcribe.
pub fn long_enough(len: usize) -> (r: bool)
    ensures
        r == (len >= MIN_SAMPLES),
{
    len >= MIN_SAMPLES
}

/// Whether the settings send audio to the cloud service rather than a local
/// model.
pub fn uses_cloud(config: &AppConfig) -> (r: bool)
    ensures
        r == (config.transcription_mode@ == "cloud"@),
{
    str_equal(config.transcription_mode.as_str(), "cloud")
}

/// The message given when the selected local model is not on disk.
pub fn missing_model_message(model: &str) -> (r: String)
    ensures
        r@ == "Model "@ + model@ + " is not downloaded"@,
{
    let mut r = "Model ".to_owned();
    append_str(&mut r, model);
    append_str(&mut r, " is not downloaded");
    r
}

/// The message shown when the transcript reached the clipboard but pressing
/// the paste shortcut failed with `error`.
pub fn paste_failure_message(error: &str) -> (r: String)
    ensures
        r@ == "Text was copied, but could not be pasted. Grant Accessibility permission: "@
            + error@,
{
    let mut r = "Text was copied, but could not be pasted. Grant Accessibility permission: ".to_owned();
    append_str(&mut r, error);
    r
}

/// The message given when recognition produced no words.
pub open spec fn nothing_recognized() -> Seq<char> {
    "No speech was recognized"@
}

/// The text a raw transcript becomes: cleaned as the settings ask, then, if
/// the dictionary is on, with every dictionary rule applied.  A transcript
/// with no words left after cleaning is refused.
pub open spec fn finished_text(
    raw: Seq<char>,
    config: AppConfig,
    dictionary: Seq<DictionaryEntry>,
) -> Result<Seq<char>, Seq<char>> {
    let c = cleaned(raw, config.remove_fillers, config.auto_punctuation);
    if trim(c).len() == 0 {
        Err(nothing_recognized())
    } else if config.dictionary_enabled {
        Ok(dictionary_applied(c, dictionary))
    } else {
        Ok(c)
    }
}

/// A transcript is cleaned first and the dictionary is applied to the
/// cleaned text: it is refused, with "No speech was recognized", exactly
/// when only whitespace is left after cleaning; otherwise the finished text
/// is the cleaned text, with every dictionary rule applied to it when the
/// dictionary is on.  Turning the dictionary on changes a finished text
/// only by applying the rules to what it gave with the dictionary off.
pub proof fn lemma_finish_cleans_then_applies_dictionary(
    raw: Seq<char>,
    config: AppConfig,
    dictionary: Seq<DictionaryEntry>,
)
    ensures
        finished_text(raw, config, dictionary) is Err <==> trim(
            cleaned(raw, config.remove_fillers, config.auto_punctuation),
        ).len() == 0,
        finished_text(raw, config, dictionary) matches Err(e) ==> e == "No speech was recognized"@,
        finished_text(raw, config, dictionary) matches Ok(t) ==> t == if config.dictionary_enabled {
            dictionary_applied(cleaned(raw, config.remove_fillers, config.auto_punctuation), dictionary)
        } else {
            cleaned(raw, config.remove_fillers, config.auto_punctuation)
        },
        finished_text(raw, (AppConfig { dictionary_enabled: true, ..config }), dictionary) == match finished_text(
            raw,
            (AppConfig { dictionary_enabled: false, ..config }),
            dictionary,
        ) {
            Ok(t) => Ok(dictionary_applied(t, dictionary)),
            Err(e) => Err(e),
        },
{
}

/// Finishes a raw transcript: cleanup, the empty check, and dictionary
/// substitution.
pub fn finish_transcript(raw: &str, config: &AppConfig, dictionary: &[DictionaryEntry]) -> (r:
    Result<String, String>)
    requires
        config.remove_fillers ==> regex_builds(FILLER_PATTERN@, false),
    ensures
        match (r, finished_text(raw@, *config, dictionary@)) {
            (Ok(t), Ok(s)) => t@ == s,
            (Err(e), Err(s)) => e@ == s,
            _ => false,
        },
        r is Err <==> trim(cleaned(raw@, config.remove_fillers, config.auto_punctuation)).len() == 0,
        r matches Err(e) ==> e@ == "No speech was recognized"@,
        r matches Ok(t) ==> t@ == if config.dictionary_enabled {
            dictionary_applied(cleaned(raw@, config.remove_fillers, config.auto_punctuation), dictionary@)
        } else {
            cleaned(raw@, config.remove_fillers, config.auto_punctuation)
        },
{
    proof {
        lemma_finish_cleans_then_applies_dictionary(raw@, *config, dictionary@);
    }
    let text = clean_transcript(raw, config.remove_fillers, config.auto_punctuation);
    let v = chars_of(text.as_str());
    let t = trim_chars(v.as_slice());
    if t.len() == 0 {
        return Err("No speech was recognized".to_owned());
    }
    if config.dictionary_enabled {
        Ok(apply_dictionary(text, dictionary))
    } else {
        Ok(text)
    }
}

/// Finishes a raw transcript as `finish_transcript` does, after checking
/// that filler removal can run; `None` when the settings remove fillers and
/// the regex crate refuses the filler pattern.
pub fn try_finish_transcript(raw: &str, config: &AppConfig, dictionary: &[DictionaryEntry]) -> (r:
    Option<Result<String, String>>)
    ensures
        r is None <==> config.remove_fillers && !fillers_supported(),
        r matches Some(res) ==> match (res, finished_text(raw@, *config, dictionary@)) {
            (Ok(t), Ok(s)) => t@ == s,
            (Err(e), Err(s)) => e@ == s,
            _ => false,
        },
{
    if config.remove_fillers && !filler_pattern_builds() {
        None
    } else {
        Some(finish_transcript(raw, config, dictionary))
    }
}

/// The text kept after the optional rewrite of a dictation: the rewritten
/// text when the rewrite succeeded, the dictated text when it failed.
pub fn text_after_rewrite(text: String, rewrite: Result<String, String>) -> (r: String)
    ensures
        match rewrite {
            Ok(t) => r == t,
            Err(_) => r == text,
        },
{
    match rewrite {
        Ok(t) => t,
        Err(_) => text,
    }
}

/// The model name recorded with a dictation: the catalog name of the
/// selected model, or "Cloud Whisper" when it is not in the catalog.
pub open spec fn recorded_model_name(model_id: Seq<char>) -> Seq<char> {
    match catalog_entry(model_id) {
        Some(m) => m.name@,
        None => "Cloud Whisper"@,
    }
}

/// The model name recorded with a dictation.
pub fn history_model_name(model_id: &str) -> (r: String)
    ensures
        r@ == recorded_model_name(model_id@),
{
    match definition(model_id) {
        Some(m) => m.name.to_owned(),
        None => "Cloud Whisper".to_owned(),
    }
}

/// A history record with the given identifier and time.
pub open spec fn is_record_of(
    item: HistoryItem,
    id: String,
    timestamp: i64,
    text: String,
    raw_text: String,
    duration_seconds_bits: u32,
    transcription_ms: u128,
    config: AppConfig,
) -> bool {
    &&& item.id == id
    &&& item.text == text
    &&& item.raw_text == raw_text
    &&& item.timestamp == timestamp
    &&& item.word_count == words(text@).len()
    &&& item.duration_seconds_bits == duration_seconds_bits
    &&& item.transcription_ms == transcription_ms
    &&& item.model@ == recorded_model_name(config.model@)
    &&& item.source@ == config.transcription_mode@
}

/// The history record of a dictation, with the identifier and the time
/// given: the final text, its word count, the raw transcript, how long the
/// recording and its transcription took, the model and the source.
pub fn history_item_with(
    id: String,
    timestamp: i64,
    text: String,
    raw_text: String,
    duration_seconds_bits: u32,
    transcription_ms: u128,
    config: &AppConfig,
) -> (r: HistoryItem)
    ensures
        is_record_of(r, id, timestamp, text, raw_text, duration_seconds_bits, transcription_ms, *config),
{
    let word_count = count_words(text.as_str());
    HistoryItem {
        id,
        word_count,
        text,
        raw_text,
        timestamp,
        duration_seconds_bits,
        transcription_ms,
        model: history_model_name(config.model.as_str()),
        source: config.transcription_mode.clone(),
    }
}

/// The history record of a dictation finished at `now_ms` (milliseconds
/// since the Unix epoch), whose identifier is the version-4 UUID made from
/// the random bytes `random`.
pub fn new_history_item(
    text: String,
    raw_text: String,
    duration_seconds_bits: u32,
    transcription_ms: u128,
    config: &AppConfig,
    random: [u8; 16],
    now_ms: i64,
) -> (r: HistoryItem)
    ensures
        r.id@ == crate::storage::v4_uuid_text(random@),
        crate::storage::is_v4_uuid(r.id@),
        is_record_of(r, r.id, now_ms, text, raw_text, duration_seconds_bits, transcription_ms, *config),
{
    let id = fresh_id(random);
    history_item_with(id, now_ms, text, raw_text, duration_seconds_bits, transcription_ms, config)
}

/// What follows a successful dictation.
#[derive(Clone, Debug)]
pub struct AfterDictation {
    /// Press the paste shortcut (otherwise the text stays on the clipboard).
    pub paste: bool,
    /// Hide the widget a moment later.
    pub hide_widget: bool,
}

/// The steps after a successful dictation: the text is pasted unless the
/// settings keep it on the clipboard only, and the widget hides when it
/// auto-hides.
pub fn after_dictation(config: &AppConfig) -> (r: AfterDictation)
    ensures
        r.paste == !config.copy_to_clipboard,
        r.hide_widget == config.auto_hide_widget,
{
    AfterDictation { paste: !config.copy_to_clipboard, hide_widget: config.auto_hide_widget }
}

/// One day, in milliseconds.
pub const DAY_MS: i64 = 86_400_000;
/// One week, in milliseconds.
pub const WEEK_MS: i64 = 604_800_000;

/// The words of the items made less than `window` milliseconds before `now`.
pub open spec fn words_within(items: Seq<HistoryItem>, now: i64, window: int) -> int
    decreases items.len(),
{
    if items.len() == 0 {
        0
    } else {
        words_within(items.drop_last(), now, window) + if now - items.last().timestamp < window {
            items.last().word_count as int
        } else {
            0
        }
    }
}

/// The words of all items.
pub open spec fn total_words(items: Seq<HistoryItem>) -> int
    decreases items.len(),
{
    if items.len() == 0 {
        0
    } else {
        total_words(items.drop_last()) + items.last().word_count
    }
}

/// Word counts for the dashboard.
#[derive(Clone, Debug)]
pub struct WordStats {
    pub total_words: usize,
    pub total_sessions: usize,
    pub today_words: usize,
    pub week_words: usize,
}

proof fn lemma_window_bounds(items: Seq<HistoryItem>, now: i64)
    ensures
        0 <= words_within(items, now, DAY_MS as int) <= words_within(items, now, WEEK_MS as int)
            <= total_words(items),
    decreases items.len(),
{
    if items.len() > 0 {
        lemma_window_bounds(items.drop_last(), now);
    }
}

/// The dashboard's word counts at time `now` (milliseconds since the Unix
/// epoch): all words, the number of dictations, and the words of the last
/// day and of the last week.
pub fn word_stats(items: &[HistoryItem], now: i64) -> (r: WordStats)
    requires
        total_words(items@) <= usize::MAX,
    ensures
        r.total_words == total_words(items@),
        r.total_sessions == items@.len(),
        r.today_words == words_within(items@, now, DAY_MS as int),
        r.week_words == words_within(items@, now, WEEK_MS as int),
        r.today_words <= r.week_words <= r.total_words,
{
    let mut total: usize = 0;
    let mut today: usize = 0;
    let mut week: usize = 0;
    let mut i: usize = 0;
    while i < items.len()
        invariant
            i <= items@.len(),
            total_words(items@) <= usize::MAX,
            total == total_words(items@.take(i as int)),
            today == words_within(items@.take(i as int), now, DAY_MS as int),
            week == words_within(items@.take(i as int), now, WEEK_MS as int),
        decreases items@.len() - i,
    {
        let ghost pre = items@.take(i as int);
        let ghost post = items@.take(i + 1);
        assert(post.drop_last() =~= pre);
        proof {
            lemma_window_bounds(post, now);
            lemma_prefix_total(items@, i + 1);
        }
        let item = &items[i];
        total = total + item.word_count;
        let age = now as i128 - item.timestamp as i128;
        if age < DAY_MS as i128 {
            today = today + item.word_count;
        }
        if age < WEEK_MS as i128 {
            week = week + item.word_count;
        }
        i += 1;
    }
    assert(items@.take(items@.len() as int) =~= items@);
    proof {
        lemma_window_bounds(items@, now);
    }
    WordStats { total_words: total, total_sessions: items.len(), today_words: today, week_words: week }
}

proof fn lemma_prefix_total(items: Seq<HistoryItem>, k: int)
    requires
        0 <= k <= items.len(),
    ensures
        total_words(items.take(k)) <= total_words(items),
    decreases items.len() - k,
{
    if k < items.len() {
        lemma_prefix_total(items, k + 1);
        assert(items.take(k + 1).drop_last() =~= items.take(k));
    } else {
        assert(items.take(k) =~= items);
    }
}

} // verus!
