use vstd::prelude::*;

use super::buffer::{buffer_ends_with_typed, pushed, pushed_all, Buffer};
use super::trie::{is_best_match, occurring_trigger_is_found, occurs_at, Trie};
use super::variables::{clipboard_view, date_formats_valid, is_dated_expansion, VariableParser};
use vstd::string::StringSliceAdditionalSpecFns;

verus! {

/// Messages that can be sent to the sentinel thread.
pub enum SentinelMessage {
    /// Reload the trie from the database.
    ReloadTrie,
    /// Stop the sentinel.
    Shutdown,
}

/// A key of the keyboard, as the sentinel sees it.
#[derive(Debug, Clone, Copy, PartialEq, Eq)]
pub enum KeyCode {
    KeyA,
    KeyB,
    KeyC,
    KeyD,
    KeyE,
    KeyF,
    KeyG,
    KeyH,
    KeyI,
    KeyJ,
    KeyK,
    KeyL,
    KeyM,
    KeyN,
    KeyO,
    KeyP,
    KeyQ,
    KeyR,
    KeyS,
    KeyT,
    KeyU,
    KeyV,
    KeyW,
    KeyX,
    KeyY,
    KeyZ,
    Num0,
    Num1,
    Num2,
    Num3,
    Num4,
    Num5,
    Num6,
    Num7,
    Num8,
    Num9,
    Space,
    SemiColon,
    Equal,
    Comma,
    Minus,
    Dot,
    Slash,
    BackQuote,
    LeftBracket,
    BackSlash,
    RightBracket,
    Quote,
    Return,
    Tab,
    Escape,
    /// Any other key.
    Other,
}

/// The character a key types, if it types one.
pub open spec fn key_char(key: KeyCode) -> Option<char> {
    match key {
        KeyCode::KeyA => Some('a'),
        KeyCode::KeyB => Some('b'),
        KeyCode::KeyC => Some('c'),
        KeyCode::KeyD => Some('d'),
        KeyCode::KeyE => Some('e'),
        KeyCode::KeyF => Some('f'),
        KeyCode::KeyG => Some('g'),
        KeyCode::KeyH => Some('h'),
        KeyCode::KeyI => Some('i'),
        KeyCode::KeyJ => Some('j'),
        KeyCode::KeyK => Some('k'),
        KeyCode::KeyL => Some('l'),
        KeyCode::KeyM => Some('m'),
        KeyCode::KeyN => Some('n'),
        KeyCode::KeyO => Some('o'),
        KeyCode::KeyP => Some('p'),
        KeyCode::KeyQ => Some('q'),
        KeyCode::KeyR => Some('r'),
        KeyCode::KeyS => Some('s'),
        KeyCode::KeyT => Some('t'),
        KeyCode::KeyU => Some('u'),
        KeyCode::KeyV => Some('v'),
        KeyCode::KeyW => Some('w'),
        KeyCode::KeyX => Some('x'),
        KeyCode::KeyY => Some('y'),
        KeyCode::KeyZ => Some('z'),
        KeyCode::Num0 => Some('0'),
        KeyCode::Num1 => Some('1'),
        KeyCode::Num2 => Some('2'),
        KeyCode::Num3 => Some('3'),
        KeyCode::Num4 => Some('4'),
        KeyCode::Num5 => Some('5'),
        KeyCode::Num6 => Some('6'),
        KeyCode::Num7 => Some('7'),
        KeyCode::Num8 => Some('8'),
        KeyCode::Num9 => Some('9'),
        KeyCode::Space => Some(' '),
        KeyCode::SemiColon => Some(';'),
        KeyCode::Equal => Some('='),
        KeyCode::Comma => Some(','),
        KeyCode::Minus => Some('-'),
        KeyCode::Dot => Some('.'),
        KeyCode::Slash => Some('/'),
        KeyCode::BackQuote => Some('`'),
        KeyCode::LeftBracket => Some('['),
        KeyCode::BackSlash => Some('\\'),
        KeyCode::RightBracket => Some(']'),
        KeyCode::Quote => Some('\''),
        _ => None,
    }
}

/// Keys that end a word and so may complete a trigger.
pub open spec fn is_delimiter_key(key: KeyCode) -> bool {
    match key {
        KeyCode::Space | KeyCode::Return | KeyCode::Tab | KeyCode::Comma | KeyCode::Dot
        | KeyCode::SemiColon | KeyCode::Slash | KeyCode::BackSlash => true,
        _ => false,
    }
}

/// The character a key types, if it types one.
pub fn key_to_char(key: KeyCode) -> (c: Option<char>)
    ensures
        c == key_char(key),
{
    match key {
        KeyCode::KeyA => Some('a'),
        KeyCode::KeyB => Some('b'),
        KeyCode::KeyC => Some('c'),
        KeyCode::KeyD => Some('d'),
        KeyCode::KeyE => Some('e'),
        KeyCode::KeyF => Some('f'),
        KeyCode::KeyG => Some('g'),
        KeyCode::KeyH => Some('h'),
        KeyCode::KeyI => Some('i'),
        KeyCode::KeyJ => Some('j'),
        KeyCode::KeyK => Some('k'),
        KeyCode::KeyL => Some('l'),
        KeyCode::KeyM => Some('m'),
        KeyCode::KeyN => Some('n'),
        KeyCode::KeyO => Some('o'),
        KeyCode::KeyP => Some('p'),
        KeyCode::KeyQ => Some('q'),
        KeyCode::KeyR => Some('r'),
        KeyCode::KeyS => Some('s'),
        KeyCode::KeyT => Some('t'),
        KeyCode::KeyU => Some('u'),
        KeyCode::KeyV => Some('v'),
        KeyCode::KeyW => Some('w'),
        KeyCode::KeyX => Some('x'),
        KeyCode::KeyY => Some('y'),
        KeyCode::KeyZ => Some('z'),
        KeyCode::Num0 => Some('0'),
        KeyCode::Num1 => Some('1'),
        KeyCode::Num2 => Some('2'),
        KeyCode::Num3 => Some('3'),
        KeyCode::Num4 => Some('4'),
        KeyCode::Num5 => Some('5'),
        KeyCode::Num6 => Some('6'),
        KeyCode::Num7 => Some('7'),
        KeyCode::Num8 => Some('8'),
        KeyCode::Num9 => Some('9'),
        KeyCode::Space => Some(' '),
        KeyCode::SemiColon => Some(';'),
        KeyCode::Equal => Some('='),
        KeyCode::Comma => Some(','),
        KeyCode::Minus => Some('-'),
        KeyCode::Dot => Some('.'),
        KeyCode::Slash => Some('/'),
        KeyCode::BackQuote => Some('`'),
        KeyCode::LeftBracket => Some('['),
        KeyCode::BackSlash => Some('\\'),
        KeyCode::RightBracket => Some(']'),
        KeyCode::Quote => Some('\''),
        _ => None,
    }
}

/// Whether a key ends a word.
pub fn is_delimiter(key: KeyCode) -> (b: bool)
    ensures
        b == is_delimiter_key(key),
{
    match key {
        KeyCode::Space | KeyCode::Return | KeyCode::Tab | KeyCode::Comma | KeyCode::Dot
        | KeyCode::SemiColon | KeyCode::Slash | KeyCode::BackSlash => true,
        _ => false,
    }
}

/// `r` is what a trigger search over `text` in a trie holding `words` gives:
/// nothing when no trigger occurs, and otherwise the longest one, leftmost
/// among those of its length.
pub open spec fn is_trigger_search(words: Set<Seq<char>>, text: Seq<char>, r: Option<Seq<char>>) -> bool {
    &&& (r is None <==> forall|i: int, l: int| !occurs_at(words, text, i, l))
    &&& (r matches Some(m) ==> exists|i: int, l: int|
        is_best_match(words, text, i, l) && m == text.subrange(i, i + l))
}

pub open spec fn string_option_view(r: Option<String>) -> Option<Seq<char>> {
    match r {
        Some(s) => Some(s@),
        None => None,
    }
}

/// Handles a key press: a key that types a character adds it to the buffer;
/// a delimiter key then looks for a trigger in the buffer. Returns the
/// trigger to expand, if any.
pub fn handle_key_press(key: KeyCode, buffer: &mut Buffer, trie: &Trie) -> (r: Option<String>)
    requires
        trie.wf(),
    ensures
        final(buffer).capacity() == old(buffer).capacity(),
        match key_char(key) {
            Some(c) => final(buffer)@ == pushed(old(buffer)@, old(buffer).capacity(), c),
            None => final(buffer)@ == old(buffer)@,
        },
        !is_delimiter_key(key) ==> r is None,
        is_delimiter_key(key) ==> is_trigger_search(trie.words(), final(buffer)@, string_option_view(r)),
{
    let delimiter = is_delimiter(key);
    match key_to_char(key) {
        Some(c) => {
            buffer.push(c);
        },
        None => {},
    }
    if delimiter {
        let text = buffer.as_string();
        trie.find_matching_trigger(text.as_str())
    } else {
        None
    }
}

/// How many backspaces remove a trigger that was typed (one per byte of
/// its UTF-8 text), plus one for the delimiter that completed it when
/// `include_delimiter` holds.
pub fn delete_count(trigger: &str, include_delimiter: bool) -> (n: usize)
    requires
        vstd::utf8::encode_utf8(trigger@).len() < usize::MAX,
    ensures
        n == vstd::utf8::encode_utf8(trigger@).len() + if include_delimiter { 1int } else { 0int },
{
    if include_delimiter {
        trigger.len() + 1
    } else {
        trigger.len()
    }
}

/// The lowercase form of a text, as `str::to_lowercase` computes it.
pub uninterp spec fn lowercase(s: Seq<char>) -> Seq<char>;

/// Calls `str::to_lowercase`; the result is `lowercase(s)`.
#[verifier::external_body]
fn to_lowercase(s: &str) -> (r: String)
    ensures
        r@ == lowercase(s@),
{
    s.to_lowercase()
}

/// Some entry of `apps` names the executable `exe`, ignoring case.
pub open spec fn is_listed(apps: Seq<String>, exe: Seq<char>) -> bool {
    exists|i: int| 0 <= i < apps.len() && lowercase(#[trigger] apps[i]@) == lowercase(exe)
}

/// Whether one of `apps` names the executable `exe`, ignoring case.
fn lists_app(exe: &str, apps: &[String]) -> (b: bool)
    ensures
        b == is_listed(apps@, exe@),
{
    let exe_lower = to_lowercase(exe);
    let mut i: usize = 0;
    while i < apps.len()
        invariant
            0 <= i <= apps@.len(),
            exe_lower@ == lowercase(exe@),
            forall|k: int| 0 <= k < i ==> lowercase(#[trigger] apps@[k]@) != exe_lower@,
        decreases apps@.len() - i,
    {
        let app = to_lowercase(apps[i].as_str());
        if app == exe_lower {
            return true;
        }
        i = i + 1;
    }
    false
}

/// Whether the application in front, named by its executable `current_exe`
/// (`None` when it cannot be told), is one of `block_apps`, ignoring case.
pub fn is_current_app_blacklisted(current_exe: Option<&str>, block_apps: &[String]) -> (b: bool)
    ensures
        b == (current_exe matches Some(exe) && is_listed(block_apps@, exe@)),
{
    match current_exe {
        Some(exe) => lists_app(exe, block_apps),
        None => false,
    }
}

/// Whether expansion may happen in the application in front. One that
/// cannot be told is never held back. Otherwise it must be one of
/// `trigger_apps` when that list is not empty, and none of `block_apps`;
/// names are compared ignoring case.
pub fn is_expansion_allowed(current_exe: Option<&str>, trigger_apps: &[String], block_apps: &[String]) -> (b:
    bool)
    ensures
        b == match current_exe {
            None => true,
            Some(exe) => (trigger_apps@.len() == 0 || is_listed(trigger_apps@, exe@)) && !is_listed(
                block_apps@,
                exe@,
            ),
        },
{
    match current_exe {
        None => true,
        Some(exe) => (trigger_apps.len() == 0 || lists_app(exe, trigger_apps)) && !lists_app(
            exe,
            block_apps,
        ),
    }
}

/// Typing a stored trigger and then a delimiter, into a buffer with room
/// for both, leaves the trigger right before the delimiter, so the search
/// that the delimiter starts finds a trigger at least as long.
pub proof fn typed_trigger_is_found(
    words: Set<Seq<char>>,
    before: Seq<char>,
    max_size: nat,
    t: Seq<char>,
    d: char,
)
    requires
        words.contains(t),
        t.len() > 0,
        before.len() <= max_size,
        t.len() + 1 <= max_size,
    ensures
        ({
            let buf = pushed_all(before, max_size, t.push(d));
            &&& occurs_at(words, buf, buf.len() - t.len() - 1, t.len() as int)
            &&& forall|i: int, l: int| is_best_match(words, buf, i, l) ==> l >= t.len()
        }),
{
    let typed = t.push(d);
    let buf = pushed_all(before, max_size, typed);
    buffer_ends_with_typed(before, max_size, typed);
    let p = buf.len() - typed.len();
    assert(buf.subrange(p, p + t.len()) =~= t) by {
        assert forall|k: int| 0 <= k < t.len() implies buf.subrange(p, p + t.len())[k] == t[k] by {
            assert(buf.subrange(p, buf.len() as int)[k] == typed[k]);
        }
    }
    occurring_trigger_is_found(words, buf, t, p);
}

/// What the expansion of a typed trigger does: the number of backspaces
/// that remove the trigger and the delimiter typed after it, and the text
/// then typed in their place.
pub struct ExpansionPlan {
    pub backspaces: usize,
    pub text: String,
}

/// Plans the expansion of a trigger, just completed by a delimiter, whose
/// snippet body is `body`: remove both, then type the body with its
/// variables expanded (`clipboard` is the clipboard's text, read when the
/// body asks for it). `None` when a date format of the body is one chrono
/// rejects, on which the expansion cannot go on.
pub fn plan_expansion(trigger: &str, body: &str, clipboard: &Option<String>) -> (p: Option<ExpansionPlan>)
    requires
        vstd::utf8::encode_utf8(trigger@).len() < usize::MAX,
    ensures
        p is None <==> !date_formats_valid(body@),
        p matches Some(plan) ==> plan.backspaces == vstd::utf8::encode_utf8(trigger@).len() + 1
            && is_dated_expansion(body@, clipboard_view(clipboard), plan.text@),
{
    let mut parser = VariableParser::new();
    let backspaces = delete_count(trigger, true);
    match parser.try_parse(body, clipboard) {
        None => None,
        Some(Ok(text)) => Some(ExpansionPlan { backspaces, text }),
        Some(Err(_)) => Some(ExpansionPlan { backspaces, text: body.to_string() }),
    }
}

/// What each key types on a US keyboard without modifiers: a letter key its
/// lower-case letter, a digit key its digit, each punctuation key and the
/// space bar their character; Return, Tab, Escape and the other keys type
/// nothing into the buffer.
pub proof fn keys_type_their_characters()
    ensures
        key_char(KeyCode::KeyA) == Some('a'),
        key_char(KeyCode::KeyB) == Some('b'),
        key_char(KeyCode::KeyC) == Some('c'),
        key_char(KeyCode::KeyD) == Some('d'),
        key_char(KeyCode::KeyE) == Some('e'),
        key_char(KeyCode::KeyF) == Some('f'),
        key_char(KeyCode::KeyG) == Some('g'),
        key_char(KeyCode::KeyH) == Some('h'),
        key_char(KeyCode::KeyI) == Some('i'),
        key_char(KeyCode::KeyJ) == Some('j'),
        key_char(KeyCode::KeyK) == Some('k'),
        key_char(KeyCode::KeyL) == Some('l'),
        key_char(KeyCode::KeyM) == Some('m'),
        key_char(KeyCode::KeyN) == Some('n'),
        key_char(KeyCode::KeyO) == Some('o'),
        key_char(KeyCode::KeyP) == Some('p'),
        key_char(KeyCode::KeyQ) == Some('q'),
        key_char(KeyCode::KeyR) == Some('r'),
        key_char(KeyCode::KeyS) == Some('s'),
        key_char(KeyCode::KeyT) == Some('t'),
        key_char(KeyCode::KeyU) == Some('u'),
        key_char(KeyCode::KeyV) == Some('v'),
        key_char(KeyCode::KeyW) == Some('w'),
        key_char(KeyCode::KeyX) == Some('x'),
        key_char(KeyCode::KeyY) == Some('y'),
        key_char(KeyCode::KeyZ) == Some('z'),
        key_char(KeyCode::Num0) == Some('0'),
        key_char(KeyCode::Num1) == Some('1'),
        key_char(KeyCode::Num2) == Some('2'),
        key_char(KeyCode::Num3) == Some('3'),
        key_char(KeyCode::Num4) == Some('4'),
        key_char(KeyCode::Num5) == Some('5'),
        key_char(KeyCode::Num6) == Some('6'),
        key_char(KeyCode::Num7) == Some('7'),
        key_char(KeyCode::Num8) == Some('8'),
        key_char(KeyCode::Num9) == Some('9'),
        key_char(KeyCode::Space) == Some(' '),
        key_char(KeyCode::SemiColon) == Some(';'),
        key_char(KeyCode::Equal) == Some('='),
        key_char(KeyCode::Comma) == Some(','),
        key_char(KeyCode::Minus) == Some('-'),
        key_char(KeyCode::Dot) == Some('.'),
        key_char(KeyCode::Slash) == Some('/'),
        key_char(KeyCode::BackQuote) == Some('`'),
        key_char(KeyCode::LeftBracket) == Some('['),
        key_char(KeyCode::BackSlash) == Some('\\'),
        key_char(KeyCode::RightBracket) == Some(']'),
        key_char(KeyCode::Quote) == Some('\''),
        key_char(KeyCode::Return) is None,
        key_char(KeyCode::Tab) is None,
        key_char(KeyCode::Escape) is None,
        key_char(KeyCode::Other) is None,
{
}

/// The keys that end a word, and so may complete a trigger, are the space
/// bar, Return, Tab and the punctuation keys `,` `.` `;` `/` `\`; letters,
/// digits and the other keys do not.
pub proof fn word_ending_keys()
    ensures
        forall|k: KeyCode|
            is_delimiter_key(k) <==> (k == KeyCode::Space || k == KeyCode::Return || k
                == KeyCode::Tab || k == KeyCode::Comma || k == KeyCode::Dot || k
                == KeyCode::SemiColon || k == KeyCode::Slash || k == KeyCode::BackSlash),
{
}

/// A typing key pressed into a buffer with room keeps its character as the
/// last one of the buffer: the characters a key types are never dropped.
pub proof fn typed_key_is_buffered(s: Seq<char>, max_size: nat, key: KeyCode)
    requires
        s.len() <= max_size,
        max_size >= 1,
        key_char(key) is Some,
    ensures
        pushed(s, max_size, key_char(key)->0).last() == key_char(key)->0,
{
}

} // verus!
