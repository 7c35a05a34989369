use vstd::prelude::*;

use crate::text::chars_of;

verus! {

/// Texts shorter than this are typed with no pause between keystrokes.
pub const SHORT_TEXT_THRESHOLD: usize = 50;

/// Texts shorter than this (and not short) are typed with a 1 ms pause.
pub const MEDIUM_TEXT_THRESHOLD: usize = 200;

/// The default pause between keystrokes of long texts, in milliseconds.
pub const DEFAULT_DELAY_MS: u64 = 2;

/// The default pause between backspaces, in milliseconds.
pub const BACKSPACE_DELAY_MS: u64 = 1;

/// One simulated keystroke.
#[derive(Debug, Clone, Copy, PartialEq, Eq)]
pub enum Keystroke {
    /// The Return key, which types a line break.
    Return,
    /// Typing one character.
    Text(char),
}

/// The keystroke that types `c`.
pub open spec fn keystroke_for(c: char) -> Keystroke {
    if c == '\n' {
        Keystroke::Return
    } else {
        Keystroke::Text(c)
    }
}

/// The character a keystroke types: a line break for Return.
pub open spec fn typed_char(k: Keystroke) -> char {
    match k {
        Keystroke::Return => '\n',
        Keystroke::Text(c) => c,
    }
}

/// Every character is typed back as itself, and only the line break takes
/// the Return key; a space or any other character is typed as text.
pub proof fn keystrokes_type_each_character(c: char)
    ensures
        typed_char(keystroke_for(c)) == c,
        keystroke_for(c) is Return <==> c == '\n',
        c != '\n' ==> keystroke_for(c) == Keystroke::Text(c),
{
}

/// The timing of simulated typing: the pause between keystrokes of long
/// texts and the pause between backspaces.
pub struct Injector {
    pub delay_ms: u64,
    pub backspace_delay_ms: u64,
}

impl Injector {
    /// The default timing: 2 ms between keystrokes, 1 ms between backspaces.
    pub fn new() -> (i: Self)
        ensures
            i.delay_ms == DEFAULT_DELAY_MS,
            i.backspace_delay_ms == BACKSPACE_DELAY_MS,
    {
        Injector { delay_ms: DEFAULT_DELAY_MS, backspace_delay_ms: BACKSPACE_DELAY_MS }
    }

    /// A timing with the given keystroke pause; backspaces pause no longer
    /// than 1 ms.
    pub fn with_delay(delay_ms: u64) -> (i: Self)
        ensures
            i.delay_ms == delay_ms,
            i.backspace_delay_ms == if delay_ms < BACKSPACE_DELAY_MS {
                delay_ms
            } else {
                BACKSPACE_DELAY_MS
            },
    {
        let backspace = if delay_ms < BACKSPACE_DELAY_MS {
            delay_ms
        } else {
            BACKSPACE_DELAY_MS
        };
        Injector { delay_ms, backspace_delay_ms: backspace }
    }

    /// Sets the pause between keystrokes of long texts.
    pub fn set_delay(&mut self, delay_ms: u64)
        ensures
            final(self).delay_ms == delay_ms,
            final(self).backspace_delay_ms == old(self).backspace_delay_ms,
    {
        self.delay_ms = delay_ms;
    }

    /// Sets the pause between backspaces.
    pub fn set_backspace_delay(&mut self, delay_ms: u64)
        ensures
            final(self).backspace_delay_ms == delay_ms,
            final(self).delay_ms == old(self).delay_ms,
    {
        self.backspace_delay_ms = delay_ms;
    }

    /// The pause between keystrokes of long texts.
    pub fn get_delay(&self) -> (d: u64)
        ensures
            d == self.delay_ms,
    {
        self.delay_ms
    }

    /// The pause after each keystroke when typing a text of `char_count`
    /// characters: none for short texts, 1 ms for medium ones, and the
    /// configured pause for long ones.
    pub fn typing_delay(&self, char_count: usize) -> (d: u64)
        ensures
            d == if char_count < SHORT_TEXT_THRESHOLD {
                0
            } else if char_count < MEDIUM_TEXT_THRESHOLD {
                1
            } else {
                self.delay_ms
            },
    {
        if char_count < SHORT_TEXT_THRESHOLD {
            0
        } else if char_count < MEDIUM_TEXT_THRESHOLD {
            1
        } else {
            self.delay_ms
        }
    }

    /// The keystrokes that type `text`: Return for each line break, and the
    /// character itself otherwise.
    pub fn keystrokes(text: &str) -> (k: Vec<Keystroke>)
        ensures
            k@.len() == text@.len(),
            forall|i: int| 0 <= i < text@.len() ==> #[trigger] k@[i] == keystroke_for(text@[i]),
            forall|i: int| 0 <= i < text@.len() ==> typed_char(#[trigger] k@[i]) == text@[i],
    {
        let chars = chars_of(text);
        let mut k: Vec<Keystroke> = Vec::new();
        let mut i: usize = 0;
        while i < chars.len()
            invariant
                0 <= i <= chars@.len(),
                chars@ == text@,
                k@.len() == i,
                forall|j: int| 0 <= j < i ==> #[trigger] k@[j] == keystroke_for(text@[j]),
            decreases chars@.len() - i,
        {
            let c = chars[i];
            let ks = if c == '\n' {
                Keystroke::Return
            } else {
                Keystroke::Text(c)
            };
            proof {
                assert(ks == keystroke_for(text@[i as int]));
            }
            k.push(ks);
            proof {
                assert(k@[i as int] == ks);
            }
            i = i + 1;
        }
        k
    }
}

impl Default for Injector {
    fn default() -> (i: Self)
        ensures
            i.delay_ms == DEFAULT_DELAY_MS,
            i.backspace_delay_ms == BACKSPACE_DELAY_MS,
    {
        Injector::new()
    }
}

} // verus!
