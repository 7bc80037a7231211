//! Persistent application data and the edits made to it.
//!
//! The settings, the transcript history and the user's dictionary, with the
//! operations that change them: dictionary upserts and removals, history
//! edits, and the text pipeline that turns a raw transcript into the text
//! that is pasted (whitespace cleanup, filler removal, sentence punctuation,
//! dictionary substitution).
use vstd::prelude::*;
use crate::pattern::{regex_builds, regex_replaced, replaced_ignoring_case, replace_case_insensitive};
use crate::text::{
    chars_of, char_to_uppercase, count_words, eq_ignore_ascii_case, equal_ignoring_ascii_case,
    join, join_words, str_equal, string_of, trim, trim_chars, words,
};

verus! {

#[verifier::external_type_specification]
#[verifier::external_body]
pub struct ExPathBuf(std::path::PathBuf);

/// The operating system the application runs on; some defaults depend on it.
#[derive(Clone, Copy, Debug, PartialEq, Eq, Structural)]
pub enum Platform {
    MacOs,
    Windows,
    Linux,
}

/// The push-to-talk shortcut suggested on each platform.
pub open spec fn recommended_hotkey_text(platform: Platform) -> Seq<char> {
    match platform {
        Platform::MacOs => "Fn / Globe"@,
        Platform::Windows => "Ctrl + Win"@,
        Platform::Linux => "Ctrl + Alt"@,
    }
}

/// The push-to-talk shortcut suggested on `platform`.
pub fn recommended_hotkey(platform: Platform) -> (r: String)
    ensures
        r@ == recommended_hotkey_text(platform),
{
    match platform {
        Platform::MacOs => "Fn / Globe".to_owned(),
        Platform::Windows => "Ctrl + Win".to_owned(),
        Platform::Linux => "Ctrl + Alt".to_owned(),
    }
}

/// The user's settings.
///
/// `input_gain_bits` holds the IEEE-754 bit pattern of the microphone gain
/// (an `f32`); the library never computes with it.
#[derive(Clone, Debug)]
pub struct AppConfig {
    pub transcription_mode: String,
    pub model: String,
    pub cloud_language: String,
    pub push_to_talk_key: String,
    pub toggle_key: Option<String>,
    pub shortcuts_paused: bool,
    pub dismissed_suggestions: Vec<String>,
    pub close_notice_seen: bool,
    pub recording_mode: String,
    pub preferred_input_device: Option<String>,
    pub fallback_input_device: Option<String>,
    pub input_gain_bits: u32,
    pub auto_punctuation: bool,
    pub remove_fillers: bool,
    pub copy_to_clipboard: bool,
    pub auto_enhance_prompt: bool,
    pub custom_instructions: String,
    pub dictionary_enabled: bool,
    pub recording_sound_enabled: bool,
    pub auto_hide_widget: bool,
    pub show_widget: bool,
    pub follow_cursor: bool,
    pub lock_widget_position: bool,
    pub theme: String,
    pub launch_at_login: bool,
    pub onboarding_complete: bool,
    pub groq_api_key_configured: bool,
}

/// The bit pattern of the default gain, `1.0_f32`.
pub const UNIT_GAIN_BITS: u32 = 0x3f80_0000;

/// The settings of a fresh installation on `platform`.
pub open spec fn is_default_config(c: AppConfig, platform: Platform) -> bool {
    &&& c.transcription_mode@ == "local"@
    &&& c.model@ == "base-en"@
    &&& c.cloud_language@ == "auto"@
    &&& c.push_to_talk_key@ == recommended_hotkey_text(platform)
    &&& c.toggle_key is None
    &&& !c.shortcuts_paused
    &&& c.dismissed_suggestions@.len() == 0
    &&& !c.close_notice_seen
    &&& c.recording_mode@ == "push-to-talk"@
    &&& c.preferred_input_device is None
    &&& c.fallback_input_device is None
    &&& c.input_gain_bits == UNIT_GAIN_BITS
    &&& c.auto_punctuation
    &&& c.remove_fillers
    &&& !c.copy_to_clipboard
    &&& !c.auto_enhance_prompt
    &&& c.custom_instructions@.len() == 0
    &&& c.dictionary_enabled
    &&& c.recording_sound_enabled
    &&& !c.auto_hide_widget
    &&& c.show_widget
    &&& c.follow_cursor
    &&& !c.lock_widget_position
    &&& c.theme@ == "black"@
    &&& !c.launch_at_login
    &&& !c.onboarding_complete
    &&& !c.groq_api_key_configured
}

impl AppConfig {
    /// The settings of a fresh installation on `platform`.
    pub fn default_for(platform: Platform) -> (c: AppConfig)
        ensures
            is_default_config(c, platform),
    {
        AppConfig {
            transcription_mode: "local".to_owned(),
            model: "base-en".to_owned(),
            cloud_language: "auto".to_owned(),
            push_to_talk_key: recommended_hotkey(platform),
            toggle_key: None,
            shortcuts_paused: false,
            dismissed_suggestions: Vec::new(),
            close_notice_seen: false,
            recording_mode: "push-to-talk".to_owned(),
            preferred_input_device: None,
            fallback_input_device: None,
            input_gain_bits: UNIT_GAIN_BITS,
            auto_punctuation: true,
            remove_fillers: true,
            copy_to_clipboard: false,
            auto_enhance_prompt: false,
            custom_instructions: String::new(),
            dictionary_enabled: true,
            recording_sound_enabled: true,
            auto_hide_widget: false,
            show_widget: true,
            follow_cursor: true,
            lock_widget_position: false,
            theme: "black".to_owned(),
            launch_at_login: false,
            onboarding_complete: false,
            groq_api_key_configured: false,
        }
    }
}

/// One finished dictation.
///
/// `duration_seconds_bits` holds the IEEE-754 bit pattern of the recording's
/// length in seconds (an `f32`).
#[derive(Clone, Debug)]
pub struct HistoryItem {
    pub id: String,
    pub text: String,
    pub raw_text: String,
    pub timestamp: i64,
    pub word_count: usize,
    pub duration_seconds_bits: u32,
    pub transcription_ms: u128,
    pub model: String,
    pub source: String,
}

/// A dictionary rule: occurrences of `original` become `replacement`.
#[derive(Clone, Debug)]
pub struct DictionaryEntry {
    pub id: String,
    pub original: String,
    pub replacement: String,
    pub created_at: i64,
}

impl DictionaryEntry {
    /// A copy of this entry.
    pub fn duplicate(&self) -> (r: DictionaryEntry)
        ensures
            r == *self,
    {
        DictionaryEntry {
            id: self.id.clone(),
            original: self.original.clone(),
            replacement: self.replacement.clone(),
            created_at: self.created_at,
        }
    }
}

impl HistoryItem {
    /// A copy of this item.
    pub fn duplicate(&self) -> (r: HistoryItem)
        ensures
            r == *self,
    {
        HistoryItem {
            id: self.id.clone(),
            text: self.text.clone(),
            raw_text: self.raw_text.clone(),
            timestamp: self.timestamp,
            word_count: self.word_count,
            duration_seconds_bits: self.duration_seconds_bits,
            transcription_ms: self.transcription_ms,
            model: self.model.clone(),
            source: self.source.clone(),
        }
    }
}

/// Everything the application saves.
#[derive(Clone, Debug)]
pub struct PersistentData {
    pub config: AppConfig,
    pub history: Vec<HistoryItem>,
    pub dictionary: Vec<DictionaryEntry>,
}

impl PersistentData {
    /// The data of a fresh installation on `platform`.
    pub fn default_for(platform: Platform) -> (d: PersistentData)
        ensures
            is_default_config(d.config, platform),
            d.history@.len() == 0,
            d.dictionary@.len() == 0,
    {
        PersistentData {
            config: AppConfig::default_for(platform),
            history: Vec::new(),
            dictionary: Vec::new(),
        }
    }
}

/// The saved data together with the file it is saved to.
pub struct Store {
    pub path: std::path::PathBuf,
    pub data: PersistentData,
}

/// The lowercase hexadecimal digit for a value below 16.
pub open spec fn hex_digit(n: u8) -> char {
    seq!['0', '1', '2', '3', '4', '5', '6', '7', '8', '9', 'a', 'b', 'c', 'd', 'e', 'f'][n as int]
}

/// The sixteen bytes of a version-4 UUID made from `random`: the high
/// nibble of byte 6 becomes the version number 4, and the two high bits of
/// byte 8 become `10`, the RFC 4122 variant.
pub open spec fn v4_bytes(random: Seq<u8>) -> Seq<u8> {
    random.update(6, (random[6] & 0x0f) | 0x40).update(8, (random[8] & 0x3f) | 0x80)
}

/// Position `i` of a hyphenated UUID, when it is not a hyphen, shows digit
/// number `digit_index(i)` of the 32 hexadecimal digits.
pub open spec fn digit_index(i: int) -> int {
    if i < 8 {
        i
    } else if i < 13 {
        i - 1
    } else if i < 18 {
        i - 2
    } else if i < 23 {
        i - 3
    } else {
        i - 4
    }
}

/// Character `i` of the hyphenated form of the UUID with bytes `b`: the
/// bytes in order, each as two lowercase hexadecimal digits (high nibble
/// first), with hyphens after the 8th, 12th, 16th and 20th digit.
pub open spec fn hyphenated_char(b: Seq<u8>, i: int) -> char {
    if i == 8 || i == 13 || i == 18 || i == 23 {
        '-'
    } else {
        let j = digit_index(i);
        if j % 2 == 0 {
            hex_digit(b[j / 2] / 16)
        } else {
            hex_digit(b[j / 2] % 16)
        }
    }
}

/// The hyphenated lowercase form of the UUID with bytes `b`.
pub open spec fn hyphenated_text(b: Seq<u8>) -> Seq<char> {
    Seq::new(36, |i: int| hyphenated_char(b, i))
}

/// The hyphenated form of a UUID: 36 characters, hyphens at positions 8,
/// 13, 18 and 23, lowercase hexadecimal digits everywhere else.
pub open spec fn is_hyphenated_uuid(s: Seq<char>) -> bool {
    &&& s.len() == 36
    &&& forall|i: int|
        0 <= i < 36 ==> if i == 8 || i == 13 || i == 18 || i == 23 {
            #[trigger] s[i] == '-'
        } else {
            ('0' <= s[i] && s[i] <= '9') || ('a' <= s[i] && s[i] <= 'f')
        }
}

/// A version-4 UUID in hyphenated form: the version digit (position 14) is
/// `4` and the variant digit (position 19) is one of `8`, `9`, `a`, `b`.
pub open spec fn is_v4_uuid(s: Seq<char>) -> bool {
    &&& is_hyphenated_uuid(s)
    &&& s[14] == '4'
    &&& (s[19] == '8' || s[19] == '9' || s[19] == 'a' || s[19] == 'b')
}

/// The hyphenated text of a version-4 UUID made from sixteen random bytes.
pub open spec fn v4_uuid_text(random: Seq<u8>) -> Seq<char> {
    hyphenated_text(v4_bytes(random))
}

/// Every identifier made from random bytes is a hyphenated version-4 UUID.
pub proof fn lemma_v4_uuid_text(random: Seq<u8>)
    requires
        random.len() == 16,
    ensures
        is_v4_uuid(v4_uuid_text(random)),
{
    let b = v4_bytes(random);
    let s = v4_uuid_text(random);
    assert forall|i: int| 0 <= i < 36 && !(i == 8 || i == 13 || i == 18 || i == 23) implies
        ('0' <= #[trigger] s[i] && s[i] <= '9') || ('a' <= s[i] && s[i] <= 'f') by {
        let j = digit_index(i);
        assert(0 <= j / 2 < 16);
        let x = b[j / 2];
        assert(x / 16 < 16 && x % 16 < 16);
    }
    let x6: u8 = random[6];
    let x8: u8 = random[8];
    assert(((x6 & 0x0f) | 0x40) / 16 == 4) by (bit_vector);
    assert(8 <= ((x8 & 0x3f) | 0x80) / 16 <= 11) by (bit_vector);
    assert(s[14] == hex_digit(b[6] / 16));
    assert(s[19] == hex_digit(b[8] / 16));
}

/// `Builder::from_random_bytes(random).into_uuid().to_string()` of the
/// `uuid` crate: `from_random_bytes` keeps the bytes but for the version
/// bits of byte 6 and the variant bits of byte 8 (`with_version`,
/// `with_variant` in builder.rs), and `to_string` writes the bytes as the
/// hyphenated lowercase form (`format_hyphenated` in fmt.rs).
#[verifier::external_body]
fn uuid_from_random(random: [u8; 16]) -> (r: String)
    ensures
        r@ == v4_uuid_text(random@),
{
    uuid::Builder::from_random_bytes(random).into_uuid().to_string()
}

/// A fresh identifier for a stored record: the version-4 UUID made from the
/// sixteen random bytes `random`, in hyphenated form.
pub fn fresh_id(random: [u8; 16]) -> (r: String)
    ensures
        r@ == v4_uuid_text(random@),
        is_v4_uuid(r@),
{
    let r = uuid_from_random(random);
    proof {
        lemma_v4_uuid_text(random@);
    }
    r
}

/// Whether the entry's original text equals `name` up to ASCII case.
pub open spec fn matches_name(e: DictionaryEntry, name: Seq<char>) -> bool {
    eq_ignore_ascii_case(e.original@, name)
}

/// Entry `i` is the first entry of `d` that matches `name`.
pub open spec fn is_first_match(d: Seq<DictionaryEntry>, name: Seq<char>, i: int) -> bool {
    &&& 0 <= i < d.len()
    &&& matches_name(d[i], name)
    &&& forall|j: int| 0 <= j < i ==> !matches_name(#[trigger] d[j], name)
}

/// Some entry of `d` matches `name`.
pub open spec fn has_match(d: Seq<DictionaryEntry>, name: Seq<char>) -> bool {
    exists|i: int| 0 <= i < d.len() && matches_name(#[trigger] d[i], name)
}

/// The position of the first entry of `d` that matches `name`.
pub open spec fn first_match(d: Seq<DictionaryEntry>, name: Seq<char>) -> int {
    choose|i: int| is_first_match(d, name, i)
}

/// No two entries of `d` have originals that are equal up to ASCII case.
pub open spec fn distinct_originals(d: Seq<DictionaryEntry>) -> bool {
    forall|i: int, j: int|
        0 <= i < d.len() && 0 <= j < d.len() && i != j ==> !eq_ignore_ascii_case(
            #[trigger] d[i].original@,
            #[trigger] d[j].original@,
        )
}

proof fn lemma_first_match_unique(d: Seq<DictionaryEntry>, name: Seq<char>, i: int)
    requires
        is_first_match(d, name, i),
    ensures
        first_match(d, name) == i,
        has_match(d, name),
{
    let k = first_match(d, name);
    assert(is_first_match(d, name, k));
    if k < i {
        assert(!matches_name(d[k], name));
    }
    if i < k {
        assert(!matches_name(d[i], name));
    }
}

proof fn lemma_some_first_match(d: Seq<DictionaryEntry>, name: Seq<char>, k: int)
    requires
        0 <= k < d.len(),
        matches_name(d[k], name),
    ensures
        exists|i: int| is_first_match(d, name, i),
    decreases k,
{
    if exists|j: int| 0 <= j < k && matches_name(#[trigger] d[j], name) {
        let j = choose|j: int| 0 <= j < k && matches_name(#[trigger] d[j], name);
        lemma_some_first_match(d, name, j);
    } else {
        assert(is_first_match(d, name, k));
    }
}

/// When some entry matches `name`, `first_match` is the position of the
/// first one.
pub proof fn lemma_first_match(d: Seq<DictionaryEntry>, name: Seq<char>)
    requires
        has_match(d, name),
    ensures
        is_first_match(d, name, first_match(d, name)),
{
    let k = choose|k: int| 0 <= k < d.len() && matches_name(#[trigger] d[k], name);
    lemma_some_first_match(d, name, k);
}

/// The position of the first entry whose original equals `name` up to ASCII
/// case (`iter().position(|e| e.original.eq_ignore_ascii_case(name))`).
pub fn find_entry(dictionary: &Vec<DictionaryEntry>, name: &str) -> (r: Option<usize>)
    ensures
        r matches Some(i) ==> is_first_match(dictionary@, name@, i as int) && i == first_match(
            dictionary@,
            name@,
        ),
        r is None <==> !has_match(dictionary@, name@),
{
    let mut i: usize = 0;
    while i < dictionary.len()
        invariant
            i <= dictionary@.len(),
            forall|j: int| 0 <= j < i ==> !matches_name(#[trigger] dictionary@[j], name@),
        decreases dictionary@.len() - i,
    {
        if equal_ignoring_ascii_case(dictionary[i].original.as_str(), name) {
            proof {
                lemma_first_match_unique(dictionary@, name@, i as int);
            }
            return Some(i);
        }
        i += 1;
    }
    None
}

/// Inserts or updates the rule for `original`, taking the identifier and the
/// creation time of a new rule as arguments.
///
/// When an entry already matches `original` up to ASCII case, the first such
/// entry gets the new replacement and is returned; its identifier, original
/// text and creation time stay.  Otherwise a new entry is appended and
/// returned.
pub fn upsert_entry(
    dictionary: &mut Vec<DictionaryEntry>,
    original: String,
    replacement: String,
    id: String,
    created_at: i64,
) -> (r: DictionaryEntry)
    ensures
        has_match(old(dictionary)@, original@) ==> {
            let i = first_match(old(dictionary)@, original@);
            &&& r == DictionaryEntry { replacement: replacement, ..old(dictionary)@[i] }
            &&& final(dictionary)@ == old(dictionary)@.update(i, r)
        },
        !has_match(old(dictionary)@, original@) ==> {
            &&& r == DictionaryEntry { id: id, original: original, replacement: replacement, created_at: created_at }
            &&& final(dictionary)@ == old(dictionary)@.push(r)
        },
        distinct_originals(old(dictionary)@) ==> distinct_originals(final(dictionary)@),
        has_match(final(dictionary)@, original@),
        final(dictionary)@[first_match(final(dictionary)@, original@)] == r,
{
    match find_entry(dictionary, original.as_str()) {
        Some(i) => {
            let mut entry = dictionary[i].duplicate();
            entry.replacement = replacement;
            let out = entry.duplicate();
            dictionary.set(i, entry);
            proof {
                assert(is_first_match(final(dictionary)@, original@, i as int));
                lemma_first_match_unique(final(dictionary)@, original@, i as int);
                if distinct_originals(old(dictionary)@) {
                    assert forall|a: int, b: int|
                        0 <= a < final(dictionary)@.len() && 0 <= b < final(dictionary)@.len()
                            && a != b implies !eq_ignore_ascii_case(
                        #[trigger] final(dictionary)@[a].original@,
                        #[trigger] final(dictionary)@[b].original@,
                    ) by {
                        assert(final(dictionary)@[a].original == old(dictionary)@[a].original);
                        assert(final(dictionary)@[b].original == old(dictionary)@[b].original);
                        assert(!eq_ignore_ascii_case(
                            old(dictionary)@[a].original@,
                            old(dictionary)@[b].original@,
                        ));
                    }
                }
            }
            out
        },
        None => {
            let ghost name = original@;
            let entry = DictionaryEntry { id, original, replacement, created_at };
            let out = entry.duplicate();
            dictionary.push(entry);
            proof {
                let k = final(dictionary)@.len() - 1;
                assert(final(dictionary)@[k] == out);
                assert(forall|j: int| 0 <= j < k ==> final(dictionary)@[j] == old(dictionary)@[j]);
                assert(is_first_match(final(dictionary)@, name, k));
                lemma_first_match_unique(final(dictionary)@, name, k);
            }
            out
        },
    }
}

impl Store {
    /// Inserts or updates the dictionary rule for `original`.
    ///
    /// An existing rule whose original equals `original` up to ASCII case
    /// gets the new replacement; otherwise a new rule is appended, with the
    /// version-4 UUID made from the random bytes `random` as its identifier
    /// and `now_ms` (milliseconds since the Unix epoch) as its creation time.
    /// The returned entry is the one now stored.
    pub fn upsert_dictionary(
        &mut self,
        original: String,
        replacement: String,
        random: [u8; 16],
        now_ms: i64,
    ) -> (r: DictionaryEntry)
        ensures
            final(self).path == old(self).path,
            final(self).data.config == old(self).data.config,
            final(self).data.history == old(self).data.history,
            has_match(old(self).data.dictionary@, original@) ==> {
                let i = first_match(old(self).data.dictionary@, original@);
                &&& r == DictionaryEntry { replacement: replacement, ..old(self).data.dictionary@[i] }
                &&& final(self).data.dictionary@ == old(self).data.dictionary@.update(i, r)
            },
            !has_match(old(self).data.dictionary@, original@) ==> {
                &&& r.original == original
                &&& r.replacement == replacement
                &&& r.id@ == v4_uuid_text(random@)
                &&& is_v4_uuid(r.id@)
                &&& r.created_at == now_ms
                &&& final(self).data.dictionary@ == old(self).data.dictionary@.push(r)
            },
            distinct_originals(old(self).data.dictionary@) ==> distinct_originals(
                final(self).data.dictionary@,
            ),
            has_match(final(self).data.dictionary@, original@),
            final(self).data.dictionary@[first_match(final(self).data.dictionary@, original@)] == r,
    {
        match find_entry(&self.data.dictionary, original.as_str()) {
            Some(_) => upsert_entry(&mut self.data.dictionary, original, replacement, String::new(), 0),
            None => {
                let id = fresh_id(random);
                upsert_entry(&mut self.data.dictionary, original, replacement, id, now_ms)
            },
        }
    }
}

/// `text` after every dictionary rule has been applied, in order.
pub open spec fn dictionary_applied(text: Seq<char>, entries: Seq<DictionaryEntry>) -> Seq<char>
    decreases entries.len(),
{
    if entries.len() == 0 {
        text
    } else {
        dictionary_applied(
            replaced_ignoring_case(text, entries[0].original@, entries[0].replacement@),
            entries.drop_first(),
        )
    }
}

/// The dictionary works rule by rule, each rule being one pass of
/// case-insensitive replacement over the text that the rules before it left:
/// no rules leave the text as it is, a single rule is exactly one
/// replacement of its original by its replacement, a rule followed by more
/// rules is that replacement followed by the rest, and applying the rules
/// `a` and then `b` is applying `a + b`.
pub proof fn lemma_dictionary_rule_by_rule(
    text: Seq<char>,
    e: DictionaryEntry,
    a: Seq<DictionaryEntry>,
    b: Seq<DictionaryEntry>,
)
    ensures
        dictionary_applied(text, seq![]) == text,
        dictionary_applied(text, seq![e]) == replaced_ignoring_case(text, e.original@, e.replacement@),
        dictionary_applied(text, seq![e] + b) == dictionary_applied(
            replaced_ignoring_case(text, e.original@, e.replacement@),
            b,
        ),
        dictionary_applied(text, a + b) == dictionary_applied(dictionary_applied(text, a), b),
    decreases a.len(),
{
    assert((seq![e] + b).drop_first() =~= b);
    assert(seq![e].drop_first() =~= Seq::<DictionaryEntry>::empty());
    let once = replaced_ignoring_case(text, e.original@, e.replacement@);
    assert(dictionary_applied(once, Seq::<DictionaryEntry>::empty()) == once);
    if a.len() == 0 {
        assert(a + b =~= b);
    } else {
        let next = replaced_ignoring_case(text, a[0].original@, a[0].replacement@);
        lemma_dictionary_rule_by_rule(next, e, a.drop_first(), b);
        assert((a + b).drop_first() =~= a.drop_first() + b);
        assert((a + b)[0] == a[0]);
    }
}

/// Applies the dictionary rules to `text`, one after the other: each rule
/// replaces every occurrence of its original, ignoring case, with its
/// replacement.
pub fn apply_dictionary(text: String, entries: &[DictionaryEntry]) -> (r: String)
    ensures
        r@ == dictionary_applied(text@, entries@),
{
    let mut text = text;
    let ghost start = text@;
    let mut i: usize = 0;
    assert(entries@.skip(0) =~= entries@);
    while i < entries.len()
        invariant
            i <= entries@.len(),
            dictionary_applied(text@, entries@.skip(i as int)) == dictionary_applied(
                start,
                entries@,
            ),
        decreases entries@.len() - i,
    {
        let entry = &entries[i];
        assert(entries@.skip(i as int).drop_first() =~= entries@.skip(i + 1));
        text = replace_case_insensitive(text.as_str(), entry.original.as_str(), entry.replacement.as_str());
        i += 1;
    }
    text
}

/// The regular expression that matches spoken filler words ("um", "uh",
/// "erm", "you know", "i mean") with the punctuation and spaces after them.
pub const FILLER_PATTERN: &'static str = r"(?i)\b(?:um+|uh+|erm+|you know|i mean)\b[,;:\s]*";

/// The words of `s` separated by single spaces.
pub open spec fn collapse_ws(s: Seq<char>) -> Seq<char> {
    join(words(s), seq![' '])
}

/// `s` with the filler matches removed.
pub open spec fn fillers_removed(s: Seq<char>) -> Seq<char> {
    regex_replaced(FILLER_PATTERN@, false, s, seq![])
}

/// The filler pattern is accepted by the regex crate.
pub open spec fn fillers_supported() -> bool {
    regex_builds(FILLER_PATTERN@, false)
}

/// Characters that end a sentence.
pub open spec fn ends_sentence(c: char) -> bool {
    c == '.' || c == '!' || c == '?'
}

/// `s` with its first character replaced by `upper` and, unless the result
/// already ends a sentence, a final period.
pub open spec fn punctuated_with(s: Seq<char>, upper: Seq<char>) -> Seq<char> {
    if s.len() == 0 {
        s
    } else {
        let u = upper + s.drop_first();
        if u.len() > 0 && ends_sentence(u.last()) {
            u
        } else {
            u.push('.')
        }
    }
}

/// The first character uppercased and, unless the text already ends a
/// sentence, a final period.
pub open spec fn punctuated(s: Seq<char>) -> Seq<char> {
    if s.len() == 0 {
        s
    } else {
        punctuated_with(s, crate::text::uppercase_char(s[0]))
    }
}

/// The cleaned form of a raw transcript.
pub open spec fn cleaned(text: Seq<char>, remove_fillers: bool, auto_punctuation: bool) -> Seq<
    char,
> {
    let a = collapse_ws(text);
    let b = if remove_fillers {
        collapse_ws(trim(fillers_removed(a)))
    } else {
        a
    };
    if auto_punctuation {
        punctuated(b)
    } else {
        b
    }
}

/// Collapses whitespace runs to single spaces and trims the ends.
fn collapse(v: &[char]) -> (r: Vec<char>)
    ensures
        r@ == collapse_ws(v@),
{
    let sep: Vec<char> = vec![' '];
    assert(sep@ =~= seq![' ']);
    join_words(v, sep.as_slice())
}

/// Sentence punctuation of a cleaned transcript, given the uppercase
/// mapping of its first character: the first character is replaced by
/// `first_upper`, and a period is added unless the text then ends with `.`,
/// `!` or `?`.  Empty text stays empty.
pub fn punctuate(text: &[char], first_upper: &str) -> (r: Vec<char>)
    ensures
        r@ == punctuated_with(text@, first_upper@),
        text@.len() > 0 ==> r@.len() > 0 && ends_sentence(r@.last()),
{
    if text.len() == 0 {
        return Vec::new();
    }
    let mut u = chars_of(first_upper);
    let mut k: usize = 1;
    let ghost head = u@;
    while k < text.len()
        invariant
            1 <= k <= text@.len(),
            u@ == head + text@.subrange(1, k as int),
        decreases text@.len() - k,
    {
        u.push(text[k]);
        assert(text@.subrange(1, k as int).push(text@[k as int]) =~= text@.subrange(1, k + 1));
        assert((head + text@.subrange(1, k as int)).push(text@[k as int]) =~= head
            + text@.subrange(1, k + 1));
        k += 1;
    }
    assert(text@.subrange(1, text@.len() as int) =~= text@.drop_first());
    let done = u.len() > 0 && {
        let last = u[u.len() - 1];
        last == '.' || last == '!' || last == '?'
    };
    if !done {
        u.push('.');
    }
    u
}

/// Calls `RegexBuilder::new(pattern).case_insensitive(ci).build()` and
/// reports whether it succeeded; the answer is claimed to be `regex_builds`.
#[verifier::external_body]
fn regex_compiles(pattern: &str, case_insensitive: bool) -> (r: bool)
    ensures
        r == regex_builds(pattern@, case_insensitive),
{
    regex::RegexBuilder::new(pattern).case_insensitive(case_insensitive).build().is_ok()
}

/// Whether the regex crate accepts the filler pattern.
pub fn filler_pattern_builds() -> (r: bool)
    ensures
        r == fillers_supported(),
{
    regex_compiles(FILLER_PATTERN, false)
}

/// Cleans a raw transcript: whitespace runs become single spaces, filler
/// words are removed when asked, and with automatic punctuation the first
/// character is uppercased and a period is added unless the text already
/// ends with `.`, `!` or `?`.  Removing fillers needs the filler pattern to
/// be accepted by the regex crate.
pub fn clean_transcript(text: &str, remove_fillers: bool, auto_punctuation: bool) -> (r: String)
    requires
        remove_fillers ==> regex_builds(FILLER_PATTERN@, false),
    ensures
        r@ == cleaned(text@, remove_fillers, auto_punctuation),
        auto_punctuation && r@.len() > 0 ==> ends_sentence(r@.last()),
{
    let chars = chars_of(text);
    let mut out = collapse(chars.as_slice());
    if remove_fillers {
        let joined = string_of(out.as_slice());
        let outcome = crate::pattern::regex_replace_all(FILLER_PATTERN, false, joined.as_str(), "");
        proof {
            reveal_strlit("");
            assert(""@ =~= Seq::<char>::empty());
        }
        let stripped = crate::pattern::replacement_or_original(joined.as_str(), outcome);
        let stripped_chars = chars_of(stripped.as_str());
        let trimmed = trim_chars(stripped_chars.as_slice());
        out = collapse(trimmed.as_slice());
    }
    if auto_punctuation && out.len() > 0 {
        let first = char_to_uppercase(out[0]);
        out = punctuate(out.as_slice(), first.as_str());
    }
    string_of(out.as_slice())
}

/// Cleans a raw transcript as `clean_transcript` does, after checking that
/// filler removal can run; `None` when fillers are to be removed and the
/// regex crate refuses the filler pattern.
pub fn try_clean_transcript(text: &str, remove_fillers: bool, auto_punctuation: bool) -> (r:
    Option<String>)
    ensures
        r is None <==> remove_fillers && !fillers_supported(),
        r matches Some(s) ==> s@ == cleaned(text@, remove_fillers, auto_punctuation),
{
    if remove_fillers && !filler_pattern_builds() {
        None
    } else {
        Some(clean_transcript(text, remove_fillers, auto_punctuation))
    }
}

/// The history without the items whose id is `id`.
pub open spec fn history_without(h: Seq<HistoryItem>, id: Seq<char>) -> Seq<HistoryItem> {
    h.filter(|x: HistoryItem| x.id@ != id)
}

/// The dictionary without the entries whose id is `id`.
pub open spec fn dictionary_without(d: Seq<DictionaryEntry>, id: Seq<char>) -> Seq<DictionaryEntry> {
    d.filter(|x: DictionaryEntry| x.id@ != id)
}

/// Removes every history item whose id is `id`, keeping the others in order.
pub fn remove_history(history: &mut Vec<HistoryItem>, id: &str)
    ensures
        final(history)@ == history_without(old(history)@, id@),
{
    let mut kept: Vec<HistoryItem> = Vec::new();
    let mut i: usize = 0;
    while i < history.len()
        invariant
            i <= history@.len(),
            history@ == old(history)@,
            kept@ == history_without(history@.take(i as int), id@),
        decreases history@.len() - i,
    {
        reveal_with_fuel(Seq::<_>::filter, 1);
        assert(history@.take(i + 1).drop_last() =~= history@.take(i as int));
        if !str_equal(history[i].id.as_str(), id) {
            kept.push(history[i].duplicate());
        }
        i += 1;
    }
    assert(history@.take(history@.len() as int) =~= history@);
    *history = kept;
}

/// Removes every dictionary entry whose id is `id`, keeping the others in
/// order.
pub fn remove_dictionary_entry(dictionary: &mut Vec<DictionaryEntry>, id: &str)
    ensures
        final(dictionary)@ == dictionary_without(old(dictionary)@, id@),
{
    let mut kept: Vec<DictionaryEntry> = Vec::new();
    let mut i: usize = 0;
    while i < dictionary.len()
        invariant
            i <= dictionary@.len(),
            dictionary@ == old(dictionary)@,
            kept@ == dictionary_without(dictionary@.take(i as int), id@),
        decreases dictionary@.len() - i,
    {
        reveal_with_fuel(Seq::<_>::filter, 1);
        assert(dictionary@.take(i + 1).drop_last() =~= dictionary@.take(i as int));
        if !str_equal(dictionary[i].id.as_str(), id) {
            kept.push(dictionary[i].duplicate());
        }
        i += 1;
    }
    assert(dictionary@.take(dictionary@.len() as int) =~= dictionary@);
    *dictionary = kept;
}

/// Item `i` is the first history item whose id is `id`.
pub open spec fn is_first_with_id(h: Seq<HistoryItem>, id: Seq<char>, i: int) -> bool {
    &&& 0 <= i < h.len()
    &&& h[i].id@ == id
    &&& forall|j: int| 0 <= j < i ==> (#[trigger] h[j]).id@ != id
}

/// Some history item has id `id`.
pub open spec fn has_id(h: Seq<HistoryItem>, id: Seq<char>) -> bool {
    exists|i: int| 0 <= i < h.len() && (#[trigger] h[i]).id@ == id
}

/// The position of the first history item whose id is `id`.
pub open spec fn first_with_id(h: Seq<HistoryItem>, id: Seq<char>) -> int {
    choose|i: int| is_first_with_id(h, id, i)
}

proof fn lemma_some_first_with_id(h: Seq<HistoryItem>, id: Seq<char>, k: int)
    requires
        0 <= k < h.len(),
        h[k].id@ == id,
    ensures
        exists|i: int| is_first_with_id(h, id, i),
    decreases k,
{
    if exists|j: int| 0 <= j < k && (#[trigger] h[j]).id@ == id {
        let j = choose|j: int| 0 <= j < k && (#[trigger] h[j]).id@ == id;
        lemma_some_first_with_id(h, id, j);
    } else {
        assert(is_first_with_id(h, id, k));
    }
}

/// When some history item has id `id`, `first_with_id` is the position of
/// the first one.
pub proof fn lemma_first_with_id(h: Seq<HistoryItem>, id: Seq<char>)
    requires
        has_id(h, id),
    ensures
        is_first_with_id(h, id, first_with_id(h, id)),
{
    let k = choose|k: int| 0 <= k < h.len() && (#[trigger] h[k]).id@ == id;
    lemma_some_first_with_id(h, id, k);
}

/// The position of the first history item whose id is `id`.
pub fn find_history(history: &Vec<HistoryItem>, id: &str) -> (r: Option<usize>)
    ensures
        r matches Some(i) ==> is_first_with_id(history@, id@, i as int) && i == first_with_id(
            history@,
            id@,
        ),
        r is None <==> !has_id(history@, id@),
{
    let mut i: usize = 0;
    while i < history.len()
        invariant
            i <= history@.len(),
            forall|j: int| 0 <= j < i ==> (#[trigger] history@[j]).id@ != id@,
        decreases history@.len() - i,
    {
        if str_equal(history[i].id.as_str(), id) {
            proof {
                assert(is_first_with_id(history@, id@, i as int));
                let k = first_with_id(history@, id@);
                assert(is_first_with_id(history@, id@, k));
                if k < i {
                    assert(history@[k].id@ != id@);
                }
                if i < k {
                    assert(history@[i as int].id@ != id@);
                }
            }
            return Some(i);
        }
        i += 1;
    }
    None
}

/// The message given when a history item does not exist.
pub open spec fn not_found_message() -> Seq<char> {
    "Transcription not found"@
}

/// The history item with id `id`, or "Transcription not found".
pub fn history_item(history: &Vec<HistoryItem>, id: &str) -> (r: Result<HistoryItem, String>)
    ensures
        has_id(history@, id@) ==> r == Ok::<HistoryItem, String>(
            history@[first_with_id(history@, id@)],
        ),
        !has_id(history@, id@) ==> (r matches Err(e) && e@ == not_found_message()),
{
    match find_history(history, id) {
        Some(i) => Ok(history[i].duplicate()),
        None => Err("Transcription not found".to_owned()),
    }
}

/// Replaces the text of the history item with id `id` by `rewritten` and
/// recounts its words; the updated item is returned.  Without such an item
/// the history is unchanged and "Transcription not found" is returned.
pub fn apply_rewrite(history: &mut Vec<HistoryItem>, id: &str, rewritten: String) -> (r: Result<
    HistoryItem,
    String,
>)
    ensures
        has_id(old(history)@, id@) ==> {
            let i = first_with_id(old(history)@, id@);
            &&& r matches Ok(item) && item == HistoryItem {
                text: rewritten,
                word_count: words(rewritten@).len() as usize,
                ..old(history)@[i]
            }
            &&& final(history)@ == old(history)@.update(i, r->Ok_0)
        },
        !has_id(old(history)@, id@) ==> {
            &&& r matches Err(e) && e@ == not_found_message()
            &&& final(history)@ == old(history)@
        },
{
    match find_history(history, id) {
        Some(i) => {
            let mut item = history[i].duplicate();
            let n = count_words(rewritten.as_str());
            item.text = rewritten;
            item.word_count = n;
            let out = item.duplicate();
            history.set(i, item);
            Ok(out)
        },
        None => Err("Transcription not found".to_owned()),
    }
}

impl PersistentData {
    /// Adds a finished dictation at the front of the history.
    pub fn record(&mut self, item: HistoryItem)
        ensures
            final(self).history@ == seq![item] + old(self).history@,
            final(self).config == old(self).config,
            final(self).dictionary == old(self).dictionary,
    {
        self.history.insert(0, item);
        assert(final(self).history@ =~= seq![item] + old(self).history@);
    }
}

/// Cleaning a transcript without filler removal or punctuation is
/// idempotent: a cleaned transcript is already clean.
pub proof fn lemma_plain_cleanup_idempotent(text: Seq<char>)
    ensures
        cleaned(cleaned(text, false, false), false, false) == cleaned(text, false, false),
{
    crate::text::lemma_collapse_idempotent(text);
}

/// Replacing the first character of collapsed text by a non-empty run
/// without whitespace, and possibly adding a final period, keeps it
/// collapsed.
proof fn lemma_punctuated_collapsed(b: Seq<char>, u: Seq<char>)
    requires
        crate::text::is_collapsed(b),
        b.len() > 0,
        u.len() > 0,
        crate::text::no_ws(u),
    ensures
        crate::text::is_collapsed(punctuated_with(b, u)),
        punctuated_with(b, u).len() > 0,
        ends_sentence(punctuated_with(b, u).last()),
        punctuated_with(b, u)[0] == u[0],
{
    let v = u + b.drop_first();
    assert(v[0] == u[0]);
    assert forall|i: int| 0 <= i < v.len() && crate::text::is_ws(#[trigger] v[i]) implies v[i] == ' '
        && 0 < i < v.len() - 1 && !crate::text::is_ws(v[i - 1]) && !crate::text::is_ws(v[i + 1]) by {
        if i < u.len() {
            assert(!crate::text::is_ws(u[i]));
        } else {
            let j = i - u.len() + 1;
            assert(v[i] == b[j]);
            assert(crate::text::is_ws(b[j]));
            assert(v[i + 1] == b[j + 1]);
            if j - 1 == 0 {
                assert(v[i - 1] == u[u.len() - 1]);
            } else {
                assert(v[i - 1] == b[j - 1]);
            }
        }
    }
    if b.len() == 1 {
        assert(v.last() == u[u.len() - 1]);
    } else {
        assert(v.last() == b.last());
        if crate::text::is_ws(b[b.len() - 1]) {
            assert(false);
        }
    }
    if !(v.len() > 0 && ends_sentence(v.last())) {
        let c = v.push('.');
        assert(c[0] == u[0]);
        assert forall|i: int| 0 <= i < c.len() && crate::text::is_ws(#[trigger] c[i]) implies c[i] == ' '
            && 0 < i < c.len() - 1 && !crate::text::is_ws(c[i - 1]) && !crate::text::is_ws(c[i + 1]) by {
            assert(i < v.len());
            assert(c[i] == v[i]);
            assert(crate::text::is_ws(v[i]));
            assert(c[i - 1] == v[i - 1]);
            assert(c[i + 1] == v[i + 1]);
        }
    }
}

/// With automatic punctuation on, cleaning a cleaned transcript again
/// changes nothing, provided the uppercase mapping of the first character is
/// a non-empty run without whitespace whose own first character uppercases
/// to itself (the usual behaviour of Unicode uppercasing, which no
/// documentation here promises for every character).
pub proof fn lemma_punctuated_cleanup_idempotent(text: Seq<char>)
    requires
        collapse_ws(text).len() > 0 ==> {
            let u = crate::text::uppercase_char(collapse_ws(text)[0]);
            &&& u.len() > 0
            &&& crate::text::no_ws(u)
            &&& crate::text::uppercase_char(u[0]) == seq![u[0]]
        },
    ensures
        cleaned(cleaned(text, false, true), false, true) == cleaned(text, false, true),
{
    let b = collapse_ws(text);
    crate::text::lemma_collapse_is_collapsed(text);
    if b.len() == 0 {
        assert(words(b) =~= Seq::<Seq<char>>::empty());
    } else {
        let u = crate::text::uppercase_char(b[0]);
        let c = punctuated_with(b, u);
        assert(cleaned(text, false, true) == c);
        lemma_punctuated_collapsed(b, u);
        crate::text::lemma_collapsed_fixed(c);
        assert(collapse_ws(c) == c);
        assert(c[0] == u[0]);
        assert(seq![u[0]] + c.drop_first() =~= c);
    }
}

/// Dictionary rules with an empty original change nothing, so applying
/// only such rules (or none) leaves the text as it is.
pub proof fn lemma_blank_rules_change_nothing(text: Seq<char>, entries: Seq<DictionaryEntry>)
    requires
        forall|i: int| 0 <= i < entries.len() ==> (#[trigger] entries[i]).original@.len() == 0,
    ensures
        dictionary_applied(text, entries) == text,
    decreases entries.len(),
{
    if entries.len() > 0 {
        assert(entries[0].original@.len() == 0);
        let rest = entries.drop_first();
        assert forall|i: int| 0 <= i < rest.len() implies (#[trigger] rest[i]).original@.len() == 0 by {
            assert(rest[i] == entries[i + 1]);
        }
        lemma_blank_rules_change_nothing(text, rest);
    }
}

/// After a removal by id, no history item has that id, and every item with
/// another id is still there.
pub proof fn lemma_history_removal(h: Seq<HistoryItem>, id: Seq<char>)
    ensures
        forall|i: int| 0 <= i < history_without(h, id).len() ==> (#[trigger] history_without(h, id)[i]).id@ != id,
        forall|i: int| 0 <= i < h.len() && (#[trigger] h[i]).id@ != id ==> history_without(h, id).contains(h[i]),
{
    let f = |x: HistoryItem| x.id@ != id;
    assert forall|i: int| 0 <= i < h.filter(f).len() implies (#[trigger] h.filter(f)[i]).id@ != id by {
        h.lemma_filter_pred(f, i);
    }
    assert forall|i: int| 0 <= i < h.len() && (#[trigger] h[i]).id@ != id implies h.filter(f).contains(h[i]) by {
        h.lemma_filter_contains(f, i);
    }
}

} // verus!
