# bee

The verified core of Bee, a push-to-talk dictation tool: hold a shortcut,
speak, and the transcript is cleaned up and pasted where you type.

`src/` is a Verus library.  Every function in it is verified against its
contract; calls into outside crates (`regex`, `semver`, `uuid`) and a few `std`
functions go through small trusted wrappers whose doc comments say what is
assumed of them.  The clock and the random bytes of new identifiers are
read in `app/` and handed to the library.

- `text` — character-level primitives: whitespace, words, trimming,
  replacing, case-insensitive comparison.
- `pattern` — regex substitution (`regex` crate) and case-insensitive
  literal replacement.
- `storage` — settings, history and dictionary; dictionary upserts,
  transcript cleanup and dictionary substitution.
- `models` — the model catalog, lookups and the model list.
- `shortcuts` — shortcut parsing, hotkey registration plans and the
  push-to-talk state machine of the Fn-key monitor.
- `audio` — microphone listing and the order devices are tried in.
- `transcription` — engine choice, Whisper options and rewrite prompts.
- `session` — finishing a transcript, history records, dashboard counts.
- `interface` — widget, tray, hotkey and window decisions; settings edits.
- `updates` — release checks by semantic-version precedence.

`app/` is the Tauri application around the library: audio capture, speech
engines, network calls, files, windows and the system tray.
