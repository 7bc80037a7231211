//! Choices made around speech recognition: which engine a model needs, the
//! language and prompt handed to it, and the instructions for rewriting.
use vstd::prelude::*;
use crate::storage::AppConfig;
use crate::text::{append_str, chars_of, str_equal, trim, trim_chars, string_of};

verus! {

/// The kind of engine a local model runs on.
#[derive(Clone, Copy, Debug, PartialEq, Eq, Structural)]
pub enum EngineKind {
    Whisper,
    Parakeet,
}

/// The engine that runs model `model_id`.
pub fn engine_kind(model_id: &str) -> (r: EngineKind)
    ensures
        r == if model_id@ == "parakeet-v3"@ {
            EngineKind::Parakeet
        } else {
            EngineKind::Whisper
        },
{
    if str_equal(model_id, "parakeet-v3") {
        EngineKind::Parakeet
    } else {
        EngineKind::Whisper
    }
}

/// Whether the loaded engine must be (re)loaded to run `model_id`: none is
/// loaded, or it was loaded for another model.
pub fn needs_engine_load(loaded: Option<&str>, model_id: &str) -> (r: bool)
    ensures
        r == match loaded {
            None => true,
            Some(m) => m@ != model_id@,
        },
{
    match loaded {
        None => true,
        Some(m) => !str_equal(m, model_id),
    }
}

/// `s` ends with `suffix`.
pub open spec fn ends_with(s: Seq<char>, suffix: Seq<char>) -> bool {
    suffix.is_suffix_of(s)
}

/// The language given to Whisper: English for English-only models, none
/// (automatic detection) when the setting is "auto", and the setting
/// otherwise.
pub open spec fn whisper_language_of(model_id: Seq<char>, cloud_language: Seq<char>) -> Option<Seq<char>> {
    if ends_with(model_id, "-en"@) {
        Some("en"@)
    } else if cloud_language == "auto"@ {
        None
    } else {
        Some(cloud_language)
    }
}

/// The text of an optional string.
pub open spec fn opt_view(s: Option<String>) -> Option<Seq<char>> {
    match s {
        Some(t) => Some(t@),
        None => None,
    }
}

/// The language given to Whisper for `model_id`.
pub fn whisper_language(model_id: &str, cloud_language: &str) -> (r: Option<String>)
    ensures
        opt_view(r) == whisper_language_of(model_id@, cloud_language@),
{
    let m = chars_of(model_id);
    let n = m.len();
    let english_only = n >= 3 && m[n - 3] == '-' && m[n - 2] == 'e' && m[n - 1] == 'n';
    proof {
        reveal_strlit("-en");
        if english_only {
            assert("-en"@ =~= m@.subrange(n - 3, n as int));
        } else if n >= 3 {
            assert("-en"@[0] == '-' && "-en"@[1] == 'e' && "-en"@[2] == 'n');
            assert(m@.subrange(n - 3, n as int) != "-en"@) by {
                if m@.subrange(n - 3, n as int) == "-en"@ {
                    assert(m@.subrange(n - 3, n as int)[0] == m@[n - 3]);
                    assert(m@.subrange(n - 3, n as int)[1] == m@[n - 2]);
                    assert(m@.subrange(n - 3, n as int)[2] == m@[n - 1]);
                }
            }
        }
    }
    if english_only {
        Some("en".to_owned())
    } else if str_equal(cloud_language, "auto") {
        None
    } else {
        Some(cloud_language.to_owned())
    }
}

/// The initial prompt given to Whisper: the user's instructions, unless they
/// are blank.
pub fn whisper_prompt(custom_instructions: &str) -> (r: Option<String>)
    ensures
        opt_view(r) == if trim(custom_instructions@).len() == 0 {
            None
        } else {
            Some(custom_instructions@)
        },
{
    let v = chars_of(custom_instructions);
    let t = trim_chars(v.as_slice());
    if t.len() == 0 {
        None
    } else {
        Some(custom_instructions.to_owned())
    }
}

/// The language field sent to the cloud service: none when the setting is
/// "auto", the setting otherwise.
pub fn cloud_language_field(config: &AppConfig) -> (r: Option<String>)
    ensures
        opt_view(r) == if config.cloud_language@ == "auto"@ {
            None::<Seq<char>>
        } else {
            Some(config.cloud_language@)
        },
{
    if str_equal(config.cloud_language.as_str(), "auto") {
        None
    } else {
        Some(config.cloud_language.clone())
    }
}

/// The system instruction for rewriting a transcript.
pub open spec fn base_instruction(mode: Seq<char>) -> Seq<char> {
    if mode == "enhance"@ {
        "Rewrite the user's dictated text as a clear, complete prompt for an AI coding agent. Return only the rewritten prompt."@
    } else {
        "Polish the user's dictated text for clarity and grammar without changing meaning. Return only the polished text."@
    }
}

/// The system instruction for rewriting, with the user's preferences added
/// on a new line unless they are blank.  Mode "enhance" turns dictation into
/// a prompt for a coding agent; any other mode polishes it.
pub fn enhance_system_prompt(instructions: &str, mode: &str) -> (r: String)
    ensures
        r@ == if trim(instructions@).len() == 0 {
            base_instruction(mode@)
        } else {
            base_instruction(mode@) + "\nUser preferences: "@ + instructions@
        },
{
    let mut system = if str_equal(mode, "enhance") {
        "Rewrite the user's dictated text as a clear, complete prompt for an AI coding agent. Return only the rewritten prompt.".to_owned()
    } else {
        "Polish the user's dictated text for clarity and grammar without changing meaning. Return only the polished text.".to_owned()
    };
    let v = chars_of(instructions);
    let t = trim_chars(v.as_slice());
    if t.len() != 0 {
        append_str(&mut system, "\nUser preferences: ");
        append_str(&mut system, instructions);
    }
    system
}

/// The rewritten text taken from the service's reply, without surrounding
/// whitespace.
pub fn rewrite_reply(content: &str) -> (r: String)
    ensures
        r@ == trim(content@),
{
    let v = chars_of(content);
    let t = trim_chars(v.as_slice());
    string_of(t.as_slice())
}

} // verus!
