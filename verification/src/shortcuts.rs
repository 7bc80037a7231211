//! Keyboard shortcuts: how a shortcut text is read, which shortcuts are
//! registered, and how modifier-key changes drive push-to-talk.
use vstd::prelude::*;
use crate::storage::AppConfig;
use crate::text::{chars_of, contains_piece, erase_piece, has_piece, join, join_words, lowercase, replace_all, replace_piece, string_of, str_equal, to_lowercase, trim, trim_chars, words};

verus! {

/// Modifier flag of the Fn (Globe) key in a macOS event.
pub const FLAG_SECONDARY_FN: u64 = 0x0080_0000;
/// Modifier flag of the Shift key.
pub const FLAG_SHIFT: u64 = 0x0002_0000;
/// Modifier flag of the Control key.
pub const FLAG_CONTROL: u64 = 0x0004_0000;
/// Modifier flag of the Option key.
pub const FLAG_OPTION: u64 = 0x0008_0000;
/// Modifier flag of the Command key.
pub const FLAG_COMMAND: u64 = 0x0010_0000;

/// `s` with every occurrence of `p` removed.
pub open spec fn erase(s: Seq<char>, p: Seq<char>) -> Seq<char> {
    replace_all(s, p, seq![])
}

/// What is left of a lowercased shortcut once every modifier name, modifier
/// symbol and separator has been removed, in this order.
pub open spec fn shortcut_remainder(lower: Seq<char>) -> Seq<char> {
    let s = erase(lower, "fn"@);
    let s = erase(s, "globe"@);
    let s = erase(s, "command"@);
    let s = erase(s, "cmd"@);
    let s = erase(s, "control"@);
    let s = erase(s, "ctrl"@);
    let s = erase(s, "option"@);
    let s = erase(s, "opt"@);
    let s = erase(s, "alt"@);
    let s = erase(s, "shift"@);
    let s = erase(s, "⌘"@);
    let s = erase(s, "⌃"@);
    let s = erase(s, "⌥"@);
    let s = erase(s, "⇧"@);
    let s = erase(s, "+"@);
    let s = erase(s, "/"@);
    let s = erase(s, "-"@);
    erase(s, " "@)
}

/// The modifier flags named by a shortcut made only of modifiers, and 0 for
/// a shortcut that names any other key.
pub open spec fn modifier_mask_of(shortcut: Seq<char>) -> u64 {
    mask_from(shortcut, lowercase(shortcut))
}

/// The modifier flags named by a shortcut whose lowercase form is `lower`:
/// words are read from `lower`, modifier symbols from the shortcut itself.
pub open spec fn mask_from(shortcut: Seq<char>, lower: Seq<char>) -> u64 {
    if shortcut_remainder(lower).len() != 0 {
        0
    } else {
        let f: u64 = if has_piece(lower, "fn"@) || has_piece(lower, "globe"@) {
            FLAG_SECONDARY_FN
        } else {
            0
        };
        let c: u64 = if has_piece(shortcut, "⌘"@) || has_piece(lower, "command"@) || has_piece(
            lower,
            "cmd"@,
        ) {
            FLAG_COMMAND
        } else {
            0
        };
        let k: u64 = if has_piece(shortcut, "⌃"@) || has_piece(lower, "control"@) || has_piece(
            lower,
            "ctrl"@,
        ) {
            FLAG_CONTROL
        } else {
            0
        };
        let o: u64 = if has_piece(shortcut, "⌥"@) || has_piece(lower, "option"@) || has_piece(
            lower,
            "opt"@,
        ) || has_piece(lower, "alt"@) {
            FLAG_OPTION
        } else {
            0
        };
        let s: u64 = if has_piece(shortcut, "⇧"@) || has_piece(lower, "shift"@) {
            FLAG_SHIFT
        } else {
            0
        };
        f | c | k | o | s
    }
}

/// The flags a modifier-only shortcut gets, given its lowercase form
/// `lower`.
pub open spec fn names_flags(shortcut: Seq<char>, lower: Seq<char>, m: u64) -> bool {
    &&& (m & FLAG_SECONDARY_FN == FLAG_SECONDARY_FN) == (has_piece(lower, "fn"@) || has_piece(
        lower,
        "globe"@,
    ))
    &&& (m & FLAG_COMMAND == FLAG_COMMAND) == (has_piece(shortcut, "⌘"@) || has_piece(
        lower,
        "command"@,
    ) || has_piece(lower, "cmd"@))
    &&& (m & FLAG_CONTROL == FLAG_CONTROL) == (has_piece(shortcut, "⌃"@) || has_piece(
        lower,
        "control"@,
    ) || has_piece(lower, "ctrl"@))
    &&& (m & FLAG_OPTION == FLAG_OPTION) == (has_piece(shortcut, "⌥"@) || has_piece(
        lower,
        "option"@,
    ) || has_piece(lower, "opt"@) || has_piece(lower, "alt"@))
    &&& (m & FLAG_SHIFT == FLAG_SHIFT) == (has_piece(shortcut, "⇧"@) || has_piece(lower, "shift"@))
    &&& m & !(FLAG_SECONDARY_FN | FLAG_COMMAND | FLAG_CONTROL | FLAG_OPTION | FLAG_SHIFT) == 0
}

/// Every modifier that a modifier-only shortcut names sets its own flag,
/// and no other flag is set: Fn by "fn" or "globe"; Command by "⌘",
/// "command" or "cmd"; Control by "⌃", "control" or "ctrl"; Option by "⌥",
/// "option", "opt" or "alt"; Shift by "⇧" or "shift" (words are looked for
/// in the lowercase form, symbols in the shortcut as written).  A shortcut
/// that names any other key gets no flag at all.
pub proof fn lemma_mask_flags(shortcut: Seq<char>, lower: Seq<char>)
    ensures
        shortcut_remainder(lower).len() != 0 ==> mask_from(shortcut, lower) == 0,
        shortcut_remainder(lower).len() == 0 ==> names_flags(shortcut, lower, mask_from(shortcut, lower)),
{
    if shortcut_remainder(lower).len() == 0 {
        let f: u64 = if has_piece(lower, "fn"@) || has_piece(lower, "globe"@) {
            FLAG_SECONDARY_FN
        } else {
            0
        };
        let c: u64 = if has_piece(shortcut, "⌘"@) || has_piece(lower, "command"@) || has_piece(
            lower,
            "cmd"@,
        ) {
            FLAG_COMMAND
        } else {
            0
        };
        let k: u64 = if has_piece(shortcut, "⌃"@) || has_piece(lower, "control"@) || has_piece(
            lower,
            "ctrl"@,
        ) {
            FLAG_CONTROL
        } else {
            0
        };
        let o: u64 = if has_piece(shortcut, "⌥"@) || has_piece(lower, "option"@) || has_piece(
            lower,
            "opt"@,
        ) || has_piece(lower, "alt"@) {
            FLAG_OPTION
        } else {
            0
        };
        let s: u64 = if has_piece(shortcut, "⇧"@) || has_piece(lower, "shift"@) {
            FLAG_SHIFT
        } else {
            0
        };
        let m = f | c | k | o | s;
        assert(m == mask_from(shortcut, lower));
        assert({
            &&& (m & FLAG_SECONDARY_FN == FLAG_SECONDARY_FN) == (f != 0)
            &&& (m & FLAG_COMMAND == FLAG_COMMAND) == (c != 0)
            &&& (m & FLAG_CONTROL == FLAG_CONTROL) == (k != 0)
            &&& (m & FLAG_OPTION == FLAG_OPTION) == (o != 0)
            &&& (m & FLAG_SHIFT == FLAG_SHIFT) == (s != 0)
            &&& m & !(FLAG_SECONDARY_FN | FLAG_COMMAND | FLAG_CONTROL | FLAG_OPTION | FLAG_SHIFT) == 0
        }) by (bit_vector)
            requires
                f == 0 || f == FLAG_SECONDARY_FN,
                c == 0 || c == FLAG_COMMAND,
                k == 0 || k == FLAG_CONTROL,
                o == 0 || o == FLAG_OPTION,
                s == 0 || s == FLAG_SHIFT,
                m == f | c | k | o | s,
        ;
    }
}

/// The modifier mask depends on the shortcut only through its lowercase
/// form and through which modifier symbols (⌘ ⌃ ⌥ ⇧) it contains: two
/// shortcuts that agree on both have the same mask.
pub proof fn lemma_mask_follows_lowercase(s: Seq<char>, t: Seq<char>)
    requires
        lowercase(s) == lowercase(t),
        has_piece(s, "⌘"@) == has_piece(t, "⌘"@),
        has_piece(s, "⌃"@) == has_piece(t, "⌃"@),
        has_piece(s, "⌥"@) == has_piece(t, "⌥"@),
        has_piece(s, "⇧"@) == has_piece(t, "⇧"@),
    ensures
        modifier_mask_of(s) == modifier_mask_of(t),
{
}

/// `v` with every occurrence of `token` removed.
fn erase_token(v: &[char], token: &str) -> (r: Vec<char>)
    ensures
        r@ == erase(v@, token@),
{
    let t = chars_of(token);
    erase_piece(v, t.as_slice())
}

/// Whether `token` occurs in `v`.
fn has_token(v: &[char], token: &str) -> (r: bool)
    ensures
        r == has_piece(v@, token@),
{
    let t = chars_of(token);
    contains_piece(v, t.as_slice())
}

/// The modifier flags of a shortcut such as "Fn / Globe" or "⌃ ⌥", for the
/// macOS key monitor.  A shortcut that names any key besides modifiers gives
/// 0: such shortcuts are left to the global hotkey service.
pub fn modifier_mask(shortcut: &str) -> (r: u64)
    ensures
        r == modifier_mask_of(shortcut@),
        r & !(FLAG_SECONDARY_FN | FLAG_COMMAND | FLAG_CONTROL | FLAG_OPTION | FLAG_SHIFT) == 0,
        r != 0 ==> shortcut_remainder(lowercase(shortcut@)).len() == 0,
        shortcut_remainder(lowercase(shortcut@)).len() != 0 ==> r == 0,
        shortcut_remainder(lowercase(shortcut@)).len() == 0 ==> names_flags(shortcut@, lowercase(shortcut@), r),
{
    let lower = to_lowercase(shortcut);
    modifier_mask_lowered(shortcut, lower.as_str())
}

/// The modifier flags of `shortcut`, given its lowercase form `lower`.
pub fn modifier_mask_lowered(shortcut: &str, lower: &str) -> (r: u64)
    ensures
        r == mask_from(shortcut@, lower@),
        r & !(FLAG_SECONDARY_FN | FLAG_COMMAND | FLAG_CONTROL | FLAG_OPTION | FLAG_SHIFT) == 0,
        r != 0 ==> shortcut_remainder(lower@).len() == 0,
        shortcut_remainder(lower@).len() != 0 ==> r == 0,
        shortcut_remainder(lower@).len() == 0 ==> names_flags(shortcut@, lower@, r),
{
    proof {
        lemma_mask_flags(shortcut@, lower@);
    }
    let lower = chars_of(lower);
    let original = chars_of(shortcut);
    let rem = erase_token(lower.as_slice(), "fn");
    let rem = erase_token(rem.as_slice(), "globe");
    let rem = erase_token(rem.as_slice(), "command");
    let rem = erase_token(rem.as_slice(), "cmd");
    let rem = erase_token(rem.as_slice(), "control");
    let rem = erase_token(rem.as_slice(), "ctrl");
    let rem = erase_token(rem.as_slice(), "option");
    let rem = erase_token(rem.as_slice(), "opt");
    let rem = erase_token(rem.as_slice(), "alt");
    let rem = erase_token(rem.as_slice(), "shift");
    let rem = erase_token(rem.as_slice(), "⌘");
    let rem = erase_token(rem.as_slice(), "⌃");
    let rem = erase_token(rem.as_slice(), "⌥");
    let rem = erase_token(rem.as_slice(), "⇧");
    let rem = erase_token(rem.as_slice(), "+");
    let rem = erase_token(rem.as_slice(), "/");
    let rem = erase_token(rem.as_slice(), "-");
    let rem = erase_token(rem.as_slice(), " ");
    if rem.len() != 0 {
        assert(0u64 & !(FLAG_SECONDARY_FN | FLAG_COMMAND | FLAG_CONTROL | FLAG_OPTION | FLAG_SHIFT)
            == 0) by (bit_vector);
        return 0;
    }
    let l = lower.as_slice();
    let o = original.as_slice();
    let f: u64 = if has_token(l, "fn") || has_token(l, "globe") {
        FLAG_SECONDARY_FN
    } else {
        0
    };
    let c: u64 = if has_token(o, "⌘") || has_token(l, "command") || has_token(l, "cmd") {
        FLAG_COMMAND
    } else {
        0
    };
    let k: u64 = if has_token(o, "⌃") || has_token(l, "control") || has_token(l, "ctrl") {
        FLAG_CONTROL
    } else {
        0
    };
    let p: u64 = if has_token(o, "⌥") || has_token(l, "option") || has_token(l, "opt")
        || has_token(l, "alt") {
        FLAG_OPTION
    } else {
        0
    };
    let s: u64 = if has_token(o, "⇧") || has_token(l, "shift") {
        FLAG_SHIFT
    } else {
        0
    };
    let mask = f | c | k | p | s;
    assert(mask & !(FLAG_SECONDARY_FN | FLAG_COMMAND | FLAG_CONTROL | FLAG_OPTION | FLAG_SHIFT)
        == 0) by (bit_vector)
        requires
            f == 0 || f == FLAG_SECONDARY_FN,
            c == 0 || c == FLAG_COMMAND,
            k == 0 || k == FLAG_CONTROL,
            p == 0 || p == FLAG_OPTION,
            s == 0 || s == FLAG_SHIFT,
            mask == f | c | k | p | s,
    ;
    mask
}


/// The shortcut text in the form the global hotkey service accepts: the
/// modifier symbols spelled out and the words joined with "+".  Shortcuts
/// that use the Fn key, or that are blank, have no such form.
pub open spec fn portable_form(value: Seq<char>) -> Option<Seq<char>> {
    if has_piece(value, "Fn"@) || trim(value).len() == 0 {
        None
    } else {
        let spelled = replace_all(
            replace_all(
                replace_all(replace_all(value, "⌘"@, "Command"@), "⌃"@, "Control"@),
                "⌥"@,
                "Alt"@,
            ),
            "⇧"@,
            "Shift"@,
        );
        let normalized = join(words(spelled), "+"@);
        if normalized.len() == 0 {
            None
        } else {
            Some(normalized)
        }
    }
}

/// A shortcut in the hotkey service's form never contains whitespace.
pub proof fn lemma_portable_form_has_no_spaces(value: Seq<char>)
    ensures
        portable_form(value) matches Some(s) ==> s.len() > 0 && crate::text::no_ws(s),
{
    reveal_strlit("+");
    let spelled = replace_all(
        replace_all(
            replace_all(replace_all(value, "⌘"@, "Command"@), "⌃"@, "Control"@),
            "⌥"@,
            "Alt"@,
        ),
        "⇧"@,
        "Shift"@,
    );
    assert(crate::text::no_ws("+"@)) by {
        assert("+"@[0] == '+');
    }
    crate::text::lemma_join_words_no_ws(spelled, "+"@);
}

/// Replaces every `symbol` in `v` with `word`.
fn spell_out(v: &[char], symbol: &str, word: &str) -> (r: Vec<char>)
    requires
        symbol@.len() > 0,
    ensures
        r@ == replace_all(v@, symbol@, word@),
{
    let p = chars_of(symbol);
    let w = chars_of(word);
    replace_piece(v, p.as_slice(), w.as_slice())
}

/// The form of a shortcut that the global hotkey service accepts, such as
/// "Command+Shift+R" for "⌘ ⇧ R"; `None` for Fn shortcuts and blank text.
pub fn portable_shortcut(value: &str) -> (r: Option<String>)
    ensures
        r matches Some(s) ==> portable_form(value@) == Some(s@),
        r is None <==> portable_form(value@) is None,
{
    let v = chars_of(value);
    let trimmed = trim_chars(v.as_slice());
    if has_token(v.as_slice(), "Fn") || trimmed.len() == 0 {
        return None;
    }
    proof {
        reveal_strlit("⌘");
        reveal_strlit("⌃");
        reveal_strlit("⌥");
        reveal_strlit("⇧");
    }
    let a = spell_out(v.as_slice(), "⌘", "Command");
    let b = spell_out(a.as_slice(), "⌃", "Control");
    let c = spell_out(b.as_slice(), "⌥", "Alt");
    let d = spell_out(c.as_slice(), "⇧", "Shift");
    let plus = chars_of("+");
    let normalized = join_words(d.as_slice(), plus.as_slice());
    if normalized.len() == 0 {
        None
    } else {
        Some(string_of(normalized.as_slice()))
    }
}

/// The hotkey-service shortcuts of a configuration: the push-to-talk key,
/// then the toggle key unless it is the same shortcut.
pub open spec fn configured_forms(push_to_talk: Seq<char>, toggle: Option<Seq<char>>) -> Seq<
    Seq<char>,
> {
    let first: Seq<Seq<char>> = match portable_form(push_to_talk) {
        Some(s) => seq![s],
        None => seq![],
    };
    match toggle {
        Some(t) => match portable_form(t) {
            Some(u) => if first.contains(u) {
                first
            } else {
                first.push(u)
            },
            None => first,
        },
        None => first,
    }
}

/// What a list of hotkey-service shortcuts holds for a push-to-talk key
/// `push_to_talk` and a toggle key `toggle`: the push-to-talk key's portable
/// form first, when it has one; the toggle key's portable form, when it has
/// one; nothing else, and nothing twice.
pub open spec fn registers_forms(r: Seq<Seq<char>>, push_to_talk: Seq<char>, toggle: Option<Seq<char>>) -> bool {
    &&& portable_form(push_to_talk) matches Some(p) ==> r.len() > 0 && r[0] == p
    &&& toggle matches Some(t) ==> (portable_form(t) matches Some(u) ==> r.contains(u))
    &&& forall|x: Seq<char>|
        #![trigger r.contains(x)]
        r.contains(x) ==> portable_form(push_to_talk) == Some(x) || (toggle matches Some(t)
            && portable_form(t) == Some(x))
    &&& r.no_duplicates()
}

/// The shortcuts registered for a configuration are the push-to-talk key,
/// first, and the toggle key, each in portable form: a toggle key with a
/// portable form is always among them (once, even when it equals the
/// push-to-talk key), and no other shortcut is.
pub proof fn lemma_configured_forms(push_to_talk: Seq<char>, toggle: Option<Seq<char>>)
    ensures
        registers_forms(configured_forms(push_to_talk, toggle), push_to_talk, toggle),
{
    let first: Seq<Seq<char>> = match portable_form(push_to_talk) {
        Some(s) => seq![s],
        None => seq![],
    };
    let r = configured_forms(push_to_talk, toggle);
    assert forall|x: Seq<char>| #[trigger] first.contains(x) implies portable_form(push_to_talk) == Some(x) by {
        let w = choose|w: int| 0 <= w < first.len() && first[w] == x;
    }
    if let Some(t) = toggle {
        if let Some(u) = portable_form(t) {
            if !first.contains(u) {
                let r2 = first.push(u);
                assert(r2[r2.len() - 1] == u);
                assert forall|x: Seq<char>| #[trigger] r2.contains(x) implies portable_form(push_to_talk) == Some(x)
                    || x == u by {
                    let w = choose|w: int| 0 <= w < r2.len() && r2[w] == x;
                    if w < first.len() {
                        assert(first[w] == x);
                    }
                }
                assert(r2.no_duplicates()) by {
                    assert forall|a: int, b: int| 0 <= a < r2.len() && 0 <= b < r2.len() && a != b implies r2[a] != r2[b] by {
                        if a == r2.len() - 1 {
                            assert(first[b] == r2[b]);
                        } else if b == r2.len() - 1 {
                            assert(first[a] == r2[a]);
                        }
                    }
                }
            }
        }
    }
}

/// The views of a list of strings.
pub open spec fn texts(v: Seq<String>) -> Seq<Seq<char>> {
    v.map_values(|s: String| s@)
}

/// The toggle key of a configuration, as text.
pub open spec fn toggle_text(config: AppConfig) -> Option<Seq<char>> {
    match config.toggle_key {
        Some(t) => Some(t@),
        None => None,
    }
}

/// The shortcuts to register with the global hotkey service for `config`.
pub fn configured_shortcuts(config: &AppConfig) -> (r: Vec<String>)
    ensures
        texts(r@) == configured_forms(config.push_to_talk_key@, toggle_text(*config)),
        r@.len() <= 2,
        texts(r@).no_duplicates(),
        registers_forms(texts(r@), config.push_to_talk_key@, toggle_text(*config)),
{
    proof {
        lemma_configured_forms(config.push_to_talk_key@, toggle_text(*config));
    }
    let mut shortcuts: Vec<String> = Vec::new();
    if let Some(value) = portable_shortcut(config.push_to_talk_key.as_str()) {
        shortcuts.push(value);
    }
    assert(texts(shortcuts@) =~= match portable_form(config.push_to_talk_key@) {
        Some(s) => seq![s],
        None => Seq::<Seq<char>>::empty(),
    });
    match &config.toggle_key {
        Some(toggle) => {
            if let Some(value) = portable_shortcut(toggle.as_str()) {
                let dup = shortcuts.len() == 1 && str_equal(shortcuts[0].as_str(), value.as_str());
                proof {
                    let first = texts(shortcuts@);
                    if first.len() == 1 {
                        assert(first[0] == shortcuts@[0]@);
                        if !dup {
                            assert(!first.contains(value@));
                        } else {
                            assert(first.contains(value@));
                        }
                    } else {
                        assert(!first.contains(value@));
                    }
                }
                if !dup {
                    let ghost before = shortcuts@;
                    shortcuts.push(value);
                    assert(texts(shortcuts@) =~= texts(before).push(value@));
                }
            }
        },
        None => {},
    }
    shortcuts
}

/// The shortcut the hotkey service always keeps registered.
pub open spec fn builtin_shortcut() -> Seq<char> {
    "CommandOrControl+Shift+Space"@
}

/// Which hotkey-service shortcuts to release and which to claim when the
/// settings change.
#[derive(Clone, Debug)]
pub struct ShortcutPlan {
    pub unregister: Vec<String>,
    pub register: Vec<String>,
}

/// `v` without the built-in shortcut.
fn without_builtin(v: Vec<String>) -> (r: Vec<String>)
    ensures
        texts(r@) == texts(v@).filter(|s: Seq<char>| s != builtin_shortcut()),
{
    let mut out: Vec<String> = Vec::new();
    let mut i: usize = 0;
    while i < v.len()
        invariant
            i <= v@.len(),
            texts(out@) == texts(v@).take(i as int).filter(|s: Seq<char>| s != builtin_shortcut()),
        decreases v@.len() - i,
    {
        reveal_with_fuel(Seq::<_>::filter, 1);
        assert(texts(v@).take(i + 1).drop_last() =~= texts(v@).take(i as int));
        if !str_equal(v[i].as_str(), "CommandOrControl+Shift+Space") {
            let ghost before = out@;
            out.push(v[i].clone());
            assert(texts(out@) =~= texts(before).push(v@[i as int]@));
        }
        i += 1;
    }
    assert(texts(v@).take(v@.len() as int) =~= texts(v@));
    out
}

/// The changes to the global hotkeys when the settings go from `previous`
/// to `next`: every shortcut of `previous` is released, and unless `next`
/// pauses shortcuts every shortcut of `next` is claimed; the built-in
/// shortcut is never touched.
pub fn shortcut_plan(previous: &AppConfig, next: &AppConfig) -> (r: ShortcutPlan)
    ensures
        texts(r.unregister@) == configured_forms(
            previous.push_to_talk_key@,
            toggle_text(*previous),
        ).filter(|s: Seq<char>| s != builtin_shortcut()),
        next.shortcuts_paused ==> r.register@.len() == 0,
        !next.shortcuts_paused ==> texts(r.register@) == configured_forms(
            next.push_to_talk_key@,
            toggle_text(*next),
        ).filter(|s: Seq<char>| s != builtin_shortcut()),
{
    let unregister = without_builtin(configured_shortcuts(previous));
    let register = if next.shortcuts_paused {
        Vec::new()
    } else {
        without_builtin(configured_shortcuts(next))
    };
    ShortcutPlan { unregister, register }
}


/// macOS event type of a modifier-key change.
pub const FLAGS_CHANGED: u32 = 12;
/// macOS event type of a key press.
pub const KEY_DOWN: u32 = 10;
/// Key code of the Escape key.
pub const ESCAPE_KEYCODE: i64 = 53;

/// The events the key monitor listens to: modifier changes and key presses.
pub fn tap_event_mask() -> (r: u64)
    ensures
        r == (1u64 << 12u64) | (1u64 << 10u64),
{
    (1u64 << 12u64) | (1u64 << 10u64)
}

/// What the key monitor reports to the dispatcher.
#[derive(Clone, Copy, Debug, PartialEq, Eq, Structural)]
pub enum InputEvent {
    /// The modifier keys changed; the value is the event's modifier flags.
    Flags(u64),
    /// Escape was pressed.
    Cancel,
}

/// Classifies an event seen by the key monitor.  `has_context` and
/// `has_event` tell whether the monitor's context and the event exist;
/// `flags` and `keycode` are read from the event only when it exists.
pub fn classify_tap_event(
    event_type: u32,
    has_context: bool,
    has_event: bool,
    flags: u64,
    keycode: i64,
) -> (r: Option<InputEvent>)
    ensures
        r == if event_type == FLAGS_CHANGED && has_context && has_event {
            Some(InputEvent::Flags(flags))
        } else if event_type == KEY_DOWN && has_context && has_event && keycode == ESCAPE_KEYCODE {
            Some(InputEvent::Cancel)
        } else {
            None
        },
{
    if event_type == FLAGS_CHANGED && has_context && has_event {
        Some(InputEvent::Flags(flags))
    } else if event_type == KEY_DOWN && has_context && has_event && keycode == ESCAPE_KEYCODE {
        Some(InputEvent::Cancel)
    } else {
        None
    }
}

/// What the dispatcher does in answer to an event.
#[derive(Clone, Copy, Debug, PartialEq, Eq, Structural)]
pub enum KeyAction {
    /// Drop the recording in progress, if any.
    CancelRecording,
    /// The shortcut went down: start recording.
    BeginRecording,
    /// The shortcut went up: stop recording and transcribe.
    EndRecording,
    /// Nothing changed.
    Nothing,
}

/// Whether the push-to-talk shortcut is held, given the modifier flags.
pub open spec fn shortcut_held(flags: u64, mask: u64) -> bool {
    mask != 0 && flags & mask == mask
}

/// One step of the push-to-talk dispatcher: the next "held" state and the
/// action, from the current state and an event.
pub open spec fn key_step(held: bool, event: InputEvent, push_to_talk_key: Seq<char>) -> (bool, KeyAction) {
    match event {
        InputEvent::Cancel => (held, KeyAction::CancelRecording),
        InputEvent::Flags(flags) => {
            let now = shortcut_held(flags, modifier_mask_of(push_to_talk_key));
            if now == held {
                (held, KeyAction::Nothing)
            } else if now {
                (true, KeyAction::BeginRecording)
            } else {
                (false, KeyAction::EndRecording)
            }
        },
    }
}

/// Answers an event of the key monitor.  `held` records whether the
/// push-to-talk shortcut is down; recording starts when it goes down and
/// stops when it comes up, and Escape cancels.
pub fn on_input_event(held: &mut bool, event: InputEvent, push_to_talk_key: &str) -> (r: KeyAction)
    ensures
        (*final(held), r) == key_step(*old(held), event, push_to_talk_key@),
        r == KeyAction::BeginRecording ==> !*old(held) && *final(held),
        r == KeyAction::EndRecording ==> *old(held) && !*final(held),
        r != KeyAction::BeginRecording && r != KeyAction::EndRecording ==> *final(held) == *old(held),
{
    match event {
        InputEvent::Cancel => KeyAction::CancelRecording,
        InputEvent::Flags(flags) => {
            let mask = modifier_mask(push_to_talk_key);
            let now = mask != 0 && flags & mask == mask;
            if now == *held {
                KeyAction::Nothing
            } else {
                *held = now;
                if now {
                    KeyAction::BeginRecording
                } else {
                    KeyAction::EndRecording
                }
            }
        },
    }
}

/// Whether the Fn-key monitor may start or stop recordings: shortcuts are not
/// paused and the push-to-talk shortcut is made of modifiers only.
pub fn fn_shortcut_enabled(config: &AppConfig) -> (r: bool)
    ensures
        r == (!config.shortcuts_paused && modifier_mask_of(config.push_to_talk_key@) != 0),
{
    !config.shortcuts_paused && modifier_mask(config.push_to_talk_key.as_str()) != 0
}

/// The actions that a run of events produces from a starting state.
pub open spec fn key_actions(held: bool, events: Seq<InputEvent>, key: Seq<char>) -> Seq<KeyAction>
    decreases events.len(),
{
    if events.len() == 0 {
        seq![]
    } else {
        let (next, action) = key_step(held, events[0], key);
        seq![action] + key_actions(next, events.drop_first(), key)
    }
}

/// The state after a run of events.
pub open spec fn key_state_after(held: bool, events: Seq<InputEvent>, key: Seq<char>) -> bool
    decreases events.len(),
{
    if events.len() == 0 {
        held
    } else {
        key_state_after(key_step(held, events[0], key).0, events.drop_first(), key)
    }
}

/// Whether an action starts or stops a recording.
pub open spec fn is_edge(a: KeyAction) -> bool {
    a == KeyAction::BeginRecording || a == KeyAction::EndRecording
}

/// Starts and stops alternate: in any run of monitor events, the start and
/// stop actions strictly alternate, beginning with a start when the shortcut
/// was up (and with a stop when it was down), and the final state tells
/// which came last.
pub proof fn lemma_starts_and_stops_alternate(held: bool, events: Seq<InputEvent>, key: Seq<char>)
    ensures
        ({
            let edges = key_actions(held, events, key).filter(|a: KeyAction| is_edge(a));
            &&& forall|i: int|
                0 <= i < edges.len() ==> (#[trigger] edges[i] == KeyAction::BeginRecording) == (
                (i % 2 == 0) != held)
            &&& key_state_after(held, events, key) == ((edges.len() % 2 == 1) != held)
        }),
    decreases events.len(),
{
    reveal_with_fuel(Seq::<_>::filter, 1);
    if events.len() > 0 {
        let (next, action) = key_step(held, events[0], key);
        let rest = events.drop_first();
        lemma_starts_and_stops_alternate(next, rest, key);
        let tail = key_actions(next, rest, key);
        let all = seq![action] + tail;
        assert(key_actions(held, events, key) == all);
        lemma_filter_prepend(action, tail);
    }
}

/// Whether the push-to-talk shortcut `key` is held after a modifier change
/// event (`false` for any other event).
pub open spec fn held_after_flags(event: InputEvent, key: Seq<char>) -> bool {
    match event {
        InputEvent::Flags(flags) => shortcut_held(flags, modifier_mask_of(key)),
        InputEvent::Cancel => false,
    }
}

/// Whether every event of a run is a modifier change.
pub open spec fn only_flags(events: Seq<InputEvent>) -> bool {
    forall|i: int| 0 <= i < events.len() ==> (#[trigger] events[i]) is Flags
}

/// Starts and stops happen exactly when the held state changes: in a run of
/// modifier changes, the action for each event is a start when the shortcut
/// goes from up to down, a stop when it goes from down to up, and nothing
/// when it stays as it was after the previous event (or as it was at the
/// outset, for the first event).  So a shortcut with no modifier in it
/// never starts a recording.
pub proof fn lemma_edges_follow_held_changes(held: bool, events: Seq<InputEvent>, key: Seq<char>)
    requires
        only_flags(events),
    ensures
        key_actions(held, events, key).len() == events.len(),
        forall|i: int|
            0 <= i < events.len() ==> {
                let before = if i == 0 {
                    held
                } else {
                    held_after_flags(events[i - 1], key)
                };
                let now = held_after_flags(events[i], key);
                #[trigger] key_actions(held, events, key)[i] == if now == before {
                    KeyAction::Nothing
                } else if now {
                    KeyAction::BeginRecording
                } else {
                    KeyAction::EndRecording
                }
            },
        modifier_mask_of(key) == 0 && !held ==> forall|i: int|
            0 <= i < events.len() ==> #[trigger] key_actions(held, events, key)[i]
                == KeyAction::Nothing,
    decreases events.len(),
{
    if events.len() > 0 {
        let (next, action) = key_step(held, events[0], key);
        let rest = events.drop_first();
        assert(events[0] is Flags);
        assert(next == held_after_flags(events[0], key));
        assert(only_flags(rest)) by {
            assert forall|i: int| 0 <= i < rest.len() implies (#[trigger] rest[i]) is Flags by {
                assert(rest[i] == events[i + 1]);
            }
        }
        lemma_edges_follow_held_changes(next, rest, key);
        let all = key_actions(held, events, key);
        assert(all == seq![action] + key_actions(next, rest, key));
        assert forall|i: int| 0 < i < events.len() implies #[trigger] all[i]
            == key_actions(next, rest, key)[i - 1] && events[i] == rest[i - 1] by {}
    }
}

proof fn lemma_filter_prepend(a: KeyAction, s: Seq<KeyAction>)
    ensures
        (seq![a] + s).filter(|x: KeyAction| is_edge(x)) == if is_edge(a) {
            seq![a] + s.filter(|x: KeyAction| is_edge(x))
        } else {
            s.filter(|x: KeyAction| is_edge(x))
        },
    decreases s.len(),
{
    reveal_with_fuel(Seq::<_>::filter, 2);
    if s.len() == 0 {
        assert(seq![a] + s =~= seq![a]);
    } else {
        lemma_filter_prepend(a, s.drop_last());
        assert((seq![a] + s).drop_last() =~= seq![a] + s.drop_last());
        assert((seq![a] + s).last() == s.last());
        if is_edge(a) {
            assert((seq![a] + s.drop_last().filter(|x: KeyAction| is_edge(x))).push(s.last()) =~= seq![a]
                + s.drop_last().filter(|x: KeyAction| is_edge(x)).push(s.last()));
        }
    }
}

} // verus!
