//! Shortcuts of the hotkey helper: their configuration, and who may configure
//! them.
use crate::paths;
use crate::replay_settings;
use crate::replay_settings::ReplayDuration;
use crate::text;
use vstd::prelude::*;
use vstd::string::*;

verus! {

broadcast use vstd::string::group_string_axioms;

/// How many shortcuts can be bound.
pub const MAX_BINDINGS: usize = 9;

pub const MOD_CONTROL: u8 = 1;

pub const MOD_SHIFT: u8 = 2;

pub const MOD_ALT: u8 = 4;

pub const MOD_META: u8 = 8;

#[derive(Clone, Copy, Debug, PartialEq, Eq, Structural)]
pub enum HotkeyAction {
    ToggleOverlay,
    /// Save that many seconds.
    Save(u16),
}

#[derive(Clone, Copy, Debug, PartialEq, Eq, Structural)]
pub struct KeyChord {
    pub key: u16,
    pub modifiers: u8,
    pub action: HotkeyAction,
}

#[derive(Clone, Copy, Debug, PartialEq, Eq, Structural)]
pub enum BindingError {
    EndedEarly,
    TooMany,
    Invalid,
    UnsupportedDuration,
    UnsupportedKey,
    SeveralKeys,
    NoKey,
    Duplicate,
    Missing,
    SeveralToggles,
}

impl BindingError {
    pub open spec fn text(self) -> Seq<char> {
        match self {
            BindingError::EndedEarly => "shortcut configuration ended before START"@,
            BindingError::TooMany => "too many shortcut bindings"@,
            BindingError::Invalid => "invalid shortcut binding"@,
            BindingError::UnsupportedDuration => "unsupported Replay duration"@,
            BindingError::UnsupportedKey => "unsupported shortcut key"@,
            BindingError::SeveralKeys => "shortcut contains more than one non-modifier key"@,
            BindingError::NoKey => "shortcut has no key"@,
            BindingError::Duplicate => "duplicate shortcut binding"@,
            BindingError::Missing => "at least one shortcut binding is required"@,
            BindingError::SeveralToggles => "at most one Replay overlay shortcut is allowed"@,
        }
    }

    /// The sentence for this error.
    pub fn message(&self) -> (result: &'static str)
        ensures
            result@ == self.text(),
    {
        match self {
            BindingError::EndedEarly => "shortcut configuration ended before START",
            BindingError::TooMany => "too many shortcut bindings",
            BindingError::Invalid => "invalid shortcut binding",
            BindingError::UnsupportedDuration => "unsupported Replay duration",
            BindingError::UnsupportedKey => "unsupported shortcut key",
            BindingError::SeveralKeys => "shortcut contains more than one non-modifier key",
            BindingError::NoKey => "shortcut has no key",
            BindingError::Duplicate => "duplicate shortcut binding",
            BindingError::Missing => "at least one shortcut binding is required",
            BindingError::SeveralToggles => "at most one Replay overlay shortcut is allowed",
        }
    }
}

/// The kernel's number of a key.
pub open spec fn named_key(part: Seq<char>) -> Option<u16> {
    if text::alike(part, "1"@) {
        Some(2)
    } else if text::alike(part, "2"@) {
        Some(3)
    } else if text::alike(part, "3"@) {
        Some(4)
    } else if text::alike(part, "4"@) {
        Some(5)
    } else if text::alike(part, "5"@) {
        Some(6)
    } else if text::alike(part, "6"@) {
        Some(7)
    } else if text::alike(part, "7"@) {
        Some(8)
    } else if text::alike(part, "8"@) {
        Some(9)
    } else if text::alike(part, "9"@) {
        Some(10)
    } else if text::alike(part, "0"@) {
        Some(11)
    } else if text::alike(part, "tab"@) {
        Some(15)
    } else if text::alike(part, "q"@) {
        Some(16)
    } else if text::alike(part, "w"@) {
        Some(17)
    } else if text::alike(part, "e"@) {
        Some(18)
    } else if text::alike(part, "r"@) {
        Some(19)
    } else if text::alike(part, "t"@) {
        Some(20)
    } else if text::alike(part, "y"@) {
        Some(21)
    } else if text::alike(part, "u"@) {
        Some(22)
    } else if text::alike(part, "i"@) {
        Some(23)
    } else if text::alike(part, "o"@) {
        Some(24)
    } else if text::alike(part, "p"@) {
        Some(25)
    } else if text::alike(part, "a"@) {
        Some(30)
    } else if text::alike(part, "s"@) {
        Some(31)
    } else if text::alike(part, "d"@) {
        Some(32)
    } else if text::alike(part, "f"@) {
        Some(33)
    } else if text::alike(part, "g"@) {
        Some(34)
    } else if text::alike(part, "h"@) {
        Some(35)
    } else if text::alike(part, "j"@) {
        Some(36)
    } else if text::alike(part, "k"@) {
        Some(37)
    } else if text::alike(part, "l"@) {
        Some(38)
    } else if text::alike(part, "z"@) {
        Some(44)
    } else if text::alike(part, "x"@) {
        Some(45)
    } else if text::alike(part, "c"@) {
        Some(46)
    } else if text::alike(part, "v"@) {
        Some(47)
    } else if text::alike(part, "b"@) {
        Some(48)
    } else if text::alike(part, "n"@) {
        Some(49)
    } else if text::alike(part, "m"@) {
        Some(50)
    } else if text::alike(part, "space"@) {
        Some(57)
    } else if text::alike(part, "enter"@) {
        Some(28)
    } else if text::alike(part, "return"@) {
        Some(28)
    } else if text::alike(part, "f1"@) {
        Some(59)
    } else if text::alike(part, "f2"@) {
        Some(60)
    } else if text::alike(part, "f3"@) {
        Some(61)
    } else if text::alike(part, "f4"@) {
        Some(62)
    } else if text::alike(part, "f5"@) {
        Some(63)
    } else if text::alike(part, "f6"@) {
        Some(64)
    } else if text::alike(part, "f7"@) {
        Some(65)
    } else if text::alike(part, "f8"@) {
        Some(66)
    } else if text::alike(part, "f9"@) {
        Some(67)
    } else if text::alike(part, "f10"@) {
        Some(68)
    } else if text::alike(part, "f11"@) {
        Some(87)
    } else if text::alike(part, "f12"@) {
        Some(88)
    } else {
        None
    }
}

fn key_code(part: &[char]) -> (result: Option<u16>)
    ensures
        result == named_key(part@),
{
    if text::eq_ignore_ascii_case(part, "1") {
        Some(2)
    } else if text::eq_ignore_ascii_case(part, "2") {
        Some(3)
    } else if text::eq_ignore_ascii_case(part, "3") {
        Some(4)
    } else if text::eq_ignore_ascii_case(part, "4") {
        Some(5)
    } else if text::eq_ignore_ascii_case(part, "5") {
        Some(6)
    } else if text::eq_ignore_ascii_case(part, "6") {
        Some(7)
    } else if text::eq_ignore_ascii_case(part, "7") {
        Some(8)
    } else if text::eq_ignore_ascii_case(part, "8") {
        Some(9)
    } else if text::eq_ignore_ascii_case(part, "9") {
        Some(10)
    } else if text::eq_ignore_ascii_case(part, "0") {
        Some(11)
    } else if text::eq_ignore_ascii_case(part, "tab") {
        Some(15)
    } else if text::eq_ignore_ascii_case(part, "q") {
        Some(16)
    } else if text::eq_ignore_ascii_case(part, "w") {
        Some(17)
    } else if text::eq_ignore_ascii_case(part, "e") {
        Some(18)
    } else if text::eq_ignore_ascii_case(part, "r") {
        Some(19)
    } else if text::eq_ignore_ascii_case(part, "t") {
        Some(20)
    } else if text::eq_ignore_ascii_case(part, "y") {
        Some(21)
    } else if text::eq_ignore_ascii_case(part, "u") {
        Some(22)
    } else if text::eq_ignore_ascii_case(part, "i") {
        Some(23)
    } else if text::eq_ignore_ascii_case(part, "o") {
        Some(24)
    } else if text::eq_ignore_ascii_case(part, "p") {
        Some(25)
    } else if text::eq_ignore_ascii_case(part, "a") {
        Some(30)
    } else if text::eq_ignore_ascii_case(part, "s") {
        Some(31)
    } else if text::eq_ignore_ascii_case(part, "d") {
        Some(32)
    } else if text::eq_ignore_ascii_case(part, "f") {
        Some(33)
    } else if text::eq_ignore_ascii_case(part, "g") {
        Some(34)
    } else if text::eq_ignore_ascii_case(part, "h") {
        Some(35)
    } else if text::eq_ignore_ascii_case(part, "j") {
        Some(36)
    } else if text::eq_ignore_ascii_case(part, "k") {
        Some(37)
    } else if text::eq_ignore_ascii_case(part, "l") {
        Some(38)
    } else if text::eq_ignore_ascii_case(part, "z") {
        Some(44)
    } else if text::eq_ignore_ascii_case(part, "x") {
        Some(45)
    } else if text::eq_ignore_ascii_case(part, "c") {
        Some(46)
    } else if text::eq_ignore_ascii_case(part, "v") {
        Some(47)
    } else if text::eq_ignore_ascii_case(part, "b") {
        Some(48)
    } else if text::eq_ignore_ascii_case(part, "n") {
        Some(49)
    } else if text::eq_ignore_ascii_case(part, "m") {
        Some(50)
    } else if text::eq_ignore_ascii_case(part, "space") {
        Some(57)
    } else if text::eq_ignore_ascii_case(part, "enter") {
        Some(28)
    } else if text::eq_ignore_ascii_case(part, "return") {
        Some(28)
    } else if text::eq_ignore_ascii_case(part, "f1") {
        Some(59)
    } else if text::eq_ignore_ascii_case(part, "f2") {
        Some(60)
    } else if text::eq_ignore_ascii_case(part, "f3") {
        Some(61)
    } else if text::eq_ignore_ascii_case(part, "f4") {
        Some(62)
    } else if text::eq_ignore_ascii_case(part, "f5") {
        Some(63)
    } else if text::eq_ignore_ascii_case(part, "f6") {
        Some(64)
    } else if text::eq_ignore_ascii_case(part, "f7") {
        Some(65)
    } else if text::eq_ignore_ascii_case(part, "f8") {
        Some(66)
    } else if text::eq_ignore_ascii_case(part, "f9") {
        Some(67)
    } else if text::eq_ignore_ascii_case(part, "f10") {
        Some(68)
    } else if text::eq_ignore_ascii_case(part, "f11") {
        Some(87)
    } else if text::eq_ignore_ascii_case(part, "f12") {
        Some(88)
    } else {
        None
    }
}

/// The modifier that a part of a shortcut names.
pub open spec fn named_modifier(part: Seq<char>) -> Option<u8> {
    if text::alike(part, "ctrl"@) || text::alike(part, "control"@) {
        Some(MOD_CONTROL)
    } else if text::alike(part, "shift"@) {
        Some(MOD_SHIFT)
    } else if text::alike(part, "alt"@) {
        Some(MOD_ALT)
    } else if text::alike(part, "super"@) || text::alike(part, "meta"@) || text::alike(
        part,
        "win"@,
    ) {
        Some(MOD_META)
    } else {
        None
    }
}

fn modifier(part: &[char]) -> (result: Option<u8>)
    ensures
        result == named_modifier(part@),
{
    if text::eq_ignore_ascii_case(part, "ctrl") || text::eq_ignore_ascii_case(part, "control") {
        Some(MOD_CONTROL)
    } else if text::eq_ignore_ascii_case(part, "shift") {
        Some(MOD_SHIFT)
    } else if text::eq_ignore_ascii_case(part, "alt") {
        Some(MOD_ALT)
    } else if text::eq_ignore_ascii_case(part, "super") || text::eq_ignore_ascii_case(part, "meta")
        || text::eq_ignore_ascii_case(part, "win") {
        Some(MOD_META)
    } else {
        None
    }
}

/// A shortcut without spaces, its parts between plus signs; angle brackets
/// separate parts too.
pub open spec fn normalized(shortcut: Seq<char>) -> Seq<char>
    decreases shortcut.len(),
{
    if shortcut.len() == 0 {
        Seq::empty()
    } else {
        let before = normalized(shortcut.drop_last());
        let character = shortcut.last();
        if character == ' ' {
            before
        } else if character == '<' || character == '>' {
            before.push('+')
        } else {
            before.push(character)
        }
    }
}

/// The key, or zero while there is none, and the modifiers of some parts.
pub open spec fn chord_parts(parts: Seq<Seq<char>>) -> Result<(u16, u8), BindingError>
    decreases parts.len(),
{
    if parts.len() == 0 {
        Ok((0, 0))
    } else {
        match chord_parts(parts.drop_last()) {
            Err(error) => Err(error),
            Ok((key, modifiers)) => match named_modifier(parts.last()) {
                Some(modifier) => Ok((key, modifiers | modifier)),
                None => if key != 0 {
                    Err(BindingError::SeveralKeys)
                } else {
                    match named_key(parts.last()) {
                        Some(code) => Ok((code, modifiers)),
                        None => Err(BindingError::UnsupportedKey),
                    }
                },
            },
        }
    }
}

/// The key and the modifiers of a shortcut.
pub open spec fn chord_of(shortcut: Seq<char>) -> Result<(u16, u8), BindingError> {
    match chord_parts(text::nonempty_parts(normalized(shortcut), '+')) {
        Err(error) => Err(error),
        Ok((key, modifiers)) => if key == 0 {
            Err(BindingError::NoKey)
        } else {
            Ok((key, modifiers))
        },
    }
}

fn normalize(shortcut: &[char]) -> (result: Vec<char>)
    ensures
        result@ == normalized(shortcut@),
{
    let mut result: Vec<char> = Vec::new();
    let mut index: usize = 0;
    assert(result@ =~= normalized(shortcut@.take(0)));
    while index < shortcut.len()
        invariant
            index <= shortcut@.len(),
            result@ == normalized(shortcut@.take(index as int)),
        decreases shortcut@.len() - index,
    {
        assert(shortcut@.take(index + 1).drop_last() =~= shortcut@.take(index as int));
        assert(shortcut@.take(index + 1).last() == shortcut@[index as int]);
        let character = shortcut[index];
        if character == '<' || character == '>' {
            result.push('+');
        } else if character != ' ' {
            result.push(character);
        }
        index = index + 1;
    }
    assert(shortcut@.take(index as int) =~= shortcut@);
    result
}

proof fn lemma_chord_error(parts: Seq<Seq<char>>, count: int)
    requires
        0 <= count <= parts.len(),
        chord_parts(parts.take(count)) is Err,
    ensures
        chord_parts(parts) == chord_parts(parts.take(count)),
    decreases parts.len() - count,
{
    if count == parts.len() {
        assert(parts.take(count) =~= parts);
    } else {
        assert(parts.take(count + 1).drop_last() =~= parts.take(count));
        lemma_chord_error(parts, count + 1);
    }
}

fn read_chord(shortcut: &[char], action: HotkeyAction) -> (result: Result<KeyChord, BindingError>)
    ensures
        result == (match chord_of(shortcut@) {
            Ok((key, modifiers)) => Ok::<KeyChord, BindingError>(
                KeyChord { key, modifiers, action },
            ),
            Err(error) => Err(error),
        }),
{
    let normal = normalize(shortcut);
    let parts = text::split_nonempty_chars(normal.as_slice(), '+');
    let ghost all = text::views(parts@);
    let mut key: u16 = 0;
    let mut modifiers: u8 = 0;
    let mut index: usize = 0;
    while index < parts.len()
        invariant
            index <= parts@.len(),
            all == text::views(parts@),
            all == text::nonempty_parts(normalized(shortcut@), '+'),
            chord_parts(all.take(index as int)) == Ok::<(u16, u8), BindingError>((key, modifiers)),
        decreases parts@.len() - index,
    {
        assert(all.take(index + 1).drop_last() =~= all.take(index as int));
        assert(all.take(index + 1).last() == parts@[index as int]@);
        let part = parts[index].as_slice();
        proof {
            if chord_parts(all.take(index + 1)) is Err {
                lemma_chord_error(all, index + 1);
            }
        }
        match modifier(part) {
            Some(more) => {
                modifiers = modifiers | more;
            },
            None => {
                if key != 0 {
                    return Err(BindingError::SeveralKeys);
                }
                match key_code(part) {
                    Some(code) => {
                        key = code;
                    },
                    None => {
                        return Err(BindingError::UnsupportedKey);
                    },
                }
            },
        }
        index = index + 1;
    }
    assert(all.take(index as int) =~= all);
    if key == 0 {
        return Err(BindingError::NoKey);
    }
    Ok(KeyChord { key, modifiers, action })
}

/// Reads a shortcut such as `Ctrl+Shift+F10`. Its action is to show the
/// overlay until it is bound to another.
pub fn parse_chord(shortcut: &str) -> (result: Result<KeyChord, BindingError>)
    ensures
        result == (match chord_of(shortcut@) {
            Ok((key, modifiers)) => Ok::<KeyChord, BindingError>(
                KeyChord { key, modifiers, action: HotkeyAction::ToggleOverlay },
            ),
            Err(error) => Err(error),
        }),
{
    let chars = text::chars_of(shortcut);
    read_chord(chars.as_slice(), HotkeyAction::ToggleOverlay)
}

/// Whether so many seconds can be saved.
pub open spec fn known_duration(seconds: nat) -> bool {
    seconds == 15 || seconds == 30 || seconds == 60 || seconds == 120 || seconds == 180 || seconds
        == 300 || seconds == 600 || seconds == 900
}

/// The binding that a line states.
pub open spec fn stated_binding(line: Seq<char>) -> Result<KeyChord, BindingError> {
    match text::after_prefix(line, "TOGGLE "@) {
        Some(shortcut) => match chord_of(shortcut) {
            Ok((key, modifiers)) => Ok(
                KeyChord { key, modifiers, action: HotkeyAction::ToggleOverlay },
            ),
            Err(error) => Err(error),
        },
        None => match text::after_prefix(line, "BIND "@) {
            None => Err(BindingError::Invalid),
            Some(binding) => match text::after_last(binding, ' ') {
                None => Err(BindingError::Invalid),
                Some(number) => match text::parsed_decimal(number, u16::MAX as nat) {
                    None => Err(BindingError::UnsupportedDuration),
                    Some(seconds) => if !known_duration(seconds) {
                        Err(BindingError::UnsupportedDuration)
                    } else {
                        match chord_of(binding.take(binding.len() - number.len() - 1)) {
                            Ok((key, modifiers)) => Ok(
                                KeyChord {
                                    key,
                                    modifiers,
                                    action: HotkeyAction::Save(seconds as u16),
                                },
                            ),
                            Err(error) => Err(error),
                        }
                    },
                },
            },
        },
    }
}

fn read_binding(line: &[char]) -> (result: Result<KeyChord, BindingError>)
    ensures
        result == stated_binding(line@),
{
    if let Some(shortcut) = text::strip_prefix(line, "TOGGLE ") {
        return read_chord(shortcut.as_slice(), HotkeyAction::ToggleOverlay);
    }
    let binding = match text::strip_prefix(line, "BIND ") {
        Some(binding) => binding,
        None => {
            return Err(BindingError::Invalid);
        },
    };
    let number = match text::split_last(binding.as_slice(), ' ') {
        Some(number) => number,
        None => {
            return Err(BindingError::Invalid);
        },
    };
    proof {
        text::lemma_after_last_is_shorter(binding@, ' ');
    }
    let seconds: u64 = match text::parse_decimal(number.as_slice(), u16::MAX as u64) {
        Some(seconds) => seconds,
        None => {
            return Err(BindingError::UnsupportedDuration);
        },
    };
    if !(seconds == 15 || seconds == 30 || seconds == 60 || seconds == 120 || seconds == 180
        || seconds == 300 || seconds == 600 || seconds == 900) {
        return Err(BindingError::UnsupportedDuration);
    }
    let length: usize = binding.len() - number.len() - 1;
    let shortcut = vstd::slice::slice_subrange(binding.as_slice(), 0, length);
    assert(shortcut@ =~= binding@.take(length as int));
    read_chord(shortcut, HotkeyAction::Save(seconds as u16))
}

/// A line without its ending.
pub open spec fn without_ending(line: Seq<char>) -> Seq<char>
    decreases line.len(),
{
    if line.len() > 0 && (line.last() == '\r' || line.last() == '\n') {
        without_ending(line.drop_last())
    } else {
        line
    }
}

/// Whether two bindings have the same key and modifiers.
pub open spec fn same_keys(left: KeyChord, right: KeyChord) -> bool {
    left.key == right.key && left.modifiers == right.modifiers
}

pub open spec fn has_keys(bindings: Seq<KeyChord>, chord: KeyChord) -> bool {
    exists|i: int| 0 <= i < bindings.len() && same_keys(#[trigger] bindings[i], chord)
}

/// How many bindings show the overlay.
pub open spec fn toggles(bindings: Seq<KeyChord>) -> nat
    decreases bindings.len(),
{
    if bindings.len() == 0 {
        0
    } else {
        toggles(bindings.drop_last()) + (if bindings.last().action == HotkeyAction::ToggleOverlay {
            1nat
        } else {
            0nat
        })
    }
}

/// Bindings after a line of the configuration.
pub open spec fn after_line(bindings: Seq<KeyChord>, line: Seq<char>) -> Result<
    Seq<KeyChord>,
    BindingError,
> {
    if bindings.len() >= MAX_BINDINGS {
        Err(BindingError::TooMany)
    } else {
        match stated_binding(line) {
            Err(error) => Err(error),
            Ok(chord) => if has_keys(bindings, chord) {
                Err(BindingError::Duplicate)
            } else {
                Ok(bindings.push(chord))
            },
        }
    }
}

/// Bindings at the end of the configuration.
pub open spec fn at_start(bindings: Seq<KeyChord>) -> Result<Seq<KeyChord>, BindingError> {
    if bindings.len() == 0 {
        Err(BindingError::Missing)
    } else if toggles(bindings) > 1 {
        Err(BindingError::SeveralToggles)
    } else {
        Ok(bindings)
    }
}

/// What a configuration binds, given what was bound by the lines before.
pub open spec fn configured(bindings: Seq<KeyChord>, lines: Seq<Seq<char>>) -> Result<
    Seq<KeyChord>,
    BindingError,
>
    decreases lines.len(),
{
    if lines.len() == 0 {
        Err(BindingError::EndedEarly)
    } else {
        let line = without_ending(lines[0]);
        if line == "START"@ {
            at_start(bindings)
        } else {
            match after_line(bindings, line) {
                Err(error) => Err(error),
                Ok(next) => configured(next, lines.skip(1)),
            }
        }
    }
}

fn strip_ending(line: &[char]) -> (result: Vec<char>)
    ensures
        result@ == without_ending(line@),
{
    let mut end: usize = line.len();
    assert(line@.take(end as int) =~= line@);
    while end > 0 && (line[end - 1] == '\r' || line[end - 1] == '\n')
        invariant
            end <= line@.len(),
            without_ending(line@.take(end as int)) == without_ending(line@),
        decreases end,
    {
        assert(line@.take(end as int).drop_last() =~= line@.take(end - 1));
        end = end - 1;
    }
    let result = vstd::slice::slice_to_vec(vstd::slice::slice_subrange(line, 0, end));
    assert(result@ =~= line@.take(end as int));
    result
}

fn is_bound(bindings: &Vec<KeyChord>, chord: KeyChord) -> (result: bool)
    ensures
        result == has_keys(bindings@, chord),
{
    let mut index: usize = 0;
    while index < bindings.len()
        invariant
            index <= bindings@.len(),
            forall|i: int| 0 <= i < index ==> !same_keys(#[trigger] bindings@[i], chord),
        decreases bindings@.len() - index,
    {
        let binding = bindings[index];
        if binding.key == chord.key && binding.modifiers == chord.modifiers {
            assert(same_keys(bindings@[index as int], chord));
            return true;
        }
        index = index + 1;
    }
    false
}

fn count_toggles(bindings: &Vec<KeyChord>) -> (result: usize)
    ensures
        result == toggles(bindings@),
{
    let mut count: usize = 0;
    let mut index: usize = 0;
    while index < bindings.len()
        invariant
            count <= index <= bindings@.len(),
            count == toggles(bindings@.take(index as int)),
        decreases bindings@.len() - index,
    {
        assert(bindings@.take(index + 1).drop_last() =~= bindings@.take(index as int));
        assert(bindings@.take(index + 1).last() == bindings@[index as int]);
        if bindings[index].action == HotkeyAction::ToggleOverlay {
            count = count + 1;
        }
        index = index + 1;
    }
    assert(bindings@.take(index as int) =~= bindings@);
    count
}

/// Reads a configuration line by line.
#[derive(Debug)]
pub struct BindingReader {
    bindings: Vec<KeyChord>,
}

impl View for BindingReader {
    type V = Seq<KeyChord>;

    closed spec fn view(&self) -> Seq<KeyChord> {
        self.bindings@
    }
}

impl BindingReader {
    pub fn new() -> (result: Self)
        ensures
            result@ == Seq::<KeyChord>::empty(),
    {
        BindingReader { bindings: Vec::new() }
    }

    /// Takes one line. Says whether it ended the configuration.
    pub fn read_line(&mut self, line: &str) -> (result: Result<bool, BindingError>)
        ensures
            ({
                let content = without_ending(line@);
                if content == "START"@ {
                    result == Ok::<bool, BindingError>(true) && final(self)@ == old(self)@
                } else {
                    match after_line(old(self)@, content) {
                        Ok(next) => result == Ok::<bool, BindingError>(false) && final(self)@
                            == next,
                        Err(error) => result == Err::<bool, BindingError>(error) && final(self)@
                            == old(self)@,
                    }
                }
            }),
    {
        let chars = text::chars_of(line);
        let content = strip_ending(chars.as_slice());
        self.read_content(content.as_slice())
    }

    fn read_content(&mut self, content: &[char]) -> (result: Result<bool, BindingError>)
        ensures
            if content@ == "START"@ {
                result == Ok::<bool, BindingError>(true) && final(self)@ == old(self)@
            } else {
                match after_line(old(self)@, content@) {
                    Ok(next) => result == Ok::<bool, BindingError>(false) && final(self)@ == next,
                    Err(error) => result == Err::<bool, BindingError>(error) && final(self)@
                        == old(self)@,
                }
            },
    {
        if text::spells(content, "START") {
            return Ok(true);
        }
        if self.bindings.len() >= MAX_BINDINGS {
            return Err(BindingError::TooMany);
        }
        match read_binding(content) {
            Err(error) => Err(error),
            Ok(chord) => {
                if is_bound(&self.bindings, chord) {
                    return Err(BindingError::Duplicate);
                }
                self.bindings.push(chord);
                Ok(false)
            },
        }
    }

    /// The bindings, once the configuration has ended.
    pub fn finish(self) -> (result: Result<Vec<KeyChord>, BindingError>)
        ensures
            match result {
                Ok(bindings) => at_start(self@) == Ok::<Seq<KeyChord>, BindingError>(bindings@),
                Err(error) => at_start(self@) == Err::<Seq<KeyChord>, BindingError>(error),
            },
    {
        if self.bindings.len() == 0 {
            return Err(BindingError::Missing);
        }
        if count_toggles(&self.bindings) > 1 {
            return Err(BindingError::SeveralToggles);
        }
        Ok(self.bindings)
    }
}

/// Reads a whole configuration. What follows its end is passed over.
pub fn read_bindings(configuration: &str) -> (result: Result<Vec<KeyChord>, BindingError>)
    ensures
        ({
            let expected = configured(Seq::empty(), text::lines_of(configuration@));
            match result {
                Ok(bindings) => expected == Ok::<Seq<KeyChord>, BindingError>(bindings@),
                Err(error) => expected == Err::<Seq<KeyChord>, BindingError>(error),
            }
        }),
{
    let chars = text::chars_of(configuration);
    let lines = text::split_lines(chars.as_slice());
    let ghost all = text::views(lines@);
    let mut reader = BindingReader::new();
    let mut index: usize = 0;
    assert(all.skip(0) =~= all);
    while index < lines.len()
        invariant
            index <= lines@.len(),
            all == text::views(lines@),
            all == text::lines_of(configuration@),
            configured(Seq::empty(), all) == configured(reader@, all.skip(index as int)),
        decreases lines@.len() - index,
    {
        assert(all.skip(index as int)[0] == lines@[index as int]@);
        assert(all.skip(index as int).skip(1) =~= all.skip(index + 1));
        let content = strip_ending(lines[index].as_slice());
        match reader.read_content(content.as_slice()) {
            Err(error) => {
                return Err(error);
            },
            Ok(true) => {
                return reader.finish();
            },
            Ok(false) => {},
        }
        index = index + 1;
    }
    Err(BindingError::EndedEarly)
}

/// Whether no two bindings have the same keys.
pub open spec fn all_distinct(bindings: Seq<KeyChord>) -> bool {
    forall|i: int, j: int|
        0 <= i < j < bindings.len() ==> !same_keys(#[trigger] bindings[i], #[trigger] bindings[j])
}

/// An accepted configuration binds at least one and at most nine shortcuts,
/// no keys twice, and the overlay at most once.
pub proof fn accepted_bindings_are_bounded(bindings: Seq<KeyChord>, lines: Seq<Seq<char>>)
    requires
        bindings.len() <= MAX_BINDINGS,
        all_distinct(bindings),
        configured(bindings, lines) is Ok,
    ensures
        ({
            let accepted = configured(bindings, lines)->Ok_0;
            &&& 0 < accepted.len() <= MAX_BINDINGS
            &&& all_distinct(accepted)
            &&& toggles(accepted) <= 1
        }),
    decreases lines.len(),
{
    let line = without_ending(lines[0]);
    if line != "START"@ {
        let next = after_line(bindings, line)->Ok_0;
        assert forall|i: int, j: int| 0 <= i < j < next.len() implies !same_keys(
            #[trigger] next[i],
            #[trigger] next[j],
        ) by {
            assert(next[i] == bindings[i]);
            if j < bindings.len() {
                assert(next[j] == bindings[j]);
            }
        }
        accepted_bindings_are_bounded(next, lines.skip(1));
    }
}

#[derive(Clone, Copy, Debug, PartialEq, Eq, Structural)]
pub enum HelperRefusal {
    CredentialsUnavailable,
    UserUnavailable,
    ParentUnavailable,
    SystemUser,
    ParentCredentialsUnavailable,
    OtherUser,
    ExecutableUnavailable,
    UntrustedParent,
}

impl HelperRefusal {
    pub open spec fn text(self) -> Seq<char> {
        match self {
            HelperRefusal::CredentialsUnavailable => "process credentials are unavailable"@,
            HelperRefusal::UserUnavailable => "effective user identity is unavailable"@,
            HelperRefusal::ParentUnavailable => "parent process identity is unavailable"@,
            HelperRefusal::SystemUser => "the shortcut helper must run as the logged-in user"@,
            HelperRefusal::ParentCredentialsUnavailable => "parent process credentials are unavailable"@,
            HelperRefusal::OtherUser => "the shortcut helper and Redunar app must use the same user"@,
            HelperRefusal::ExecutableUnavailable => "parent executable is unavailable"@,
            HelperRefusal::UntrustedParent => "the helper was not started by the installed Redunar app"@,
        }
    }

    /// The sentence for this refusal.
    pub fn message(&self) -> (result: &'static str)
        ensures
            result@ == self.text(),
    {
        match self {
            HelperRefusal::CredentialsUnavailable => "process credentials are unavailable",
            HelperRefusal::UserUnavailable => "effective user identity is unavailable",
            HelperRefusal::ParentUnavailable => "parent process identity is unavailable",
            HelperRefusal::SystemUser => "the shortcut helper must run as the logged-in user",
            HelperRefusal::ParentCredentialsUnavailable => "parent process credentials are unavailable",
            HelperRefusal::OtherUser => "the shortcut helper and Redunar app must use the same user",
            HelperRefusal::ExecutableUnavailable => "parent executable is unavailable",
            HelperRefusal::UntrustedParent => "the helper was not started by the installed Redunar app",
        }
    }
}

/// What follows a prefix on the first line that has it.
pub open spec fn status_field(lines: Seq<Seq<char>>, prefix: Seq<char>) -> Option<Seq<char>>
    decreases lines.len(),
{
    if lines.len() == 0 {
        None
    } else {
        match text::after_prefix(lines[0], prefix) {
            Some(rest) => Some(rest),
            None => status_field(lines.skip(1), prefix),
        }
    }
}

/// The effective user in a status report: the second of the users listed.
pub open spec fn effective_user(status: Seq<char>) -> Option<u32> {
    match status_field(text::lines_of(status), "Uid:"@) {
        None => None,
        Some(values) => {
            let words = text::words_of(values);
            if words.len() < 2 {
                None
            } else {
                match text::parsed_decimal(words[1], u32::MAX as nat) {
                    Some(user) => Some(user as u32),
                    None => None,
                }
            }
        },
    }
}

/// The parent process in a status report.
pub open spec fn parent_process(status: Seq<char>) -> Option<u32> {
    match status_field(text::lines_of(status), "PPid:"@) {
        None => None,
        Some(value) => match text::parsed_decimal(text::trimmed(value), u32::MAX as nat) {
            Some(pid) => if pid != 0 {
                Some(pid as u32)
            } else {
                None
            },
            None => None,
        },
    }
}

/// The effective user and the parent process in a status report.
pub open spec fn process_identity(status: Seq<char>) -> Result<(u32, u32), HelperRefusal> {
    match effective_user(status) {
        None => Err(HelperRefusal::UserUnavailable),
        Some(user) => match parent_process(status) {
            None => Err(HelperRefusal::ParentUnavailable),
            Some(parent) => Ok((user, parent)),
        },
    }
}

fn find_field(status: &str, prefix: &str) -> (result: Option<Vec<char>>)
    ensures
        match result {
            Some(rest) => status_field(text::lines_of(status@), prefix@) == Some(rest@),
            None => status_field(text::lines_of(status@), prefix@) is None,
        },
{
    let chars = text::chars_of(status);
    let lines = text::split_lines(chars.as_slice());
    let ghost all = text::views(lines@);
    let mut index: usize = 0;
    assert(all.skip(0) =~= all);
    while index < lines.len()
        invariant
            index <= lines@.len(),
            all == text::views(lines@),
            all == text::lines_of(status@),
            status_field(all, prefix@) == status_field(all.skip(index as int), prefix@),
        decreases lines@.len() - index,
    {
        assert(all.skip(index as int)[0] == lines@[index as int]@);
        assert(all.skip(index as int).skip(1) =~= all.skip(index + 1));
        if let Some(rest) = text::strip_prefix(lines[index].as_slice(), prefix) {
            return Some(rest);
        }
        index = index + 1;
    }
    None
}

/// Reads the effective user and the parent process of a process.
pub fn parse_process_identity(status: &str) -> (result: Result<(u32, u32), HelperRefusal>)
    ensures
        result == process_identity(status@),
{
    let values = match find_field(status, "Uid:") {
        Some(values) => values,
        None => {
            return Err(HelperRefusal::UserUnavailable);
        },
    };
    let words = text::split_words(values.as_slice());
    let ghost all = text::views(words@);
    if words.len() < 2 {
        return Err(HelperRefusal::UserUnavailable);
    }
    assert(all[1] == words@[1]@);
    let user: u64 = match text::parse_decimal(words[1].as_slice(), u32::MAX as u64) {
        Some(user) => user,
        None => {
            return Err(HelperRefusal::UserUnavailable);
        },
    };
    let value = match find_field(status, "PPid:") {
        Some(value) => value,
        None => {
            return Err(HelperRefusal::ParentUnavailable);
        },
    };
    let trimmed = text::trim(value.as_slice());
    match text::parse_decimal(trimmed.as_slice(), u32::MAX as u64) {
        Some(parent) => if parent != 0 {
            Ok((user as u32, parent as u32))
        } else {
            Err(HelperRefusal::ParentUnavailable)
        },
        None => Err(HelperRefusal::ParentUnavailable),
    }
}

pub open spec fn status_text(status: Option<&str>) -> Option<Seq<char>> {
    match status {
        Some(status) => Some(status@),
        None => None,
    }
}

/// The user and the parent of this process, from its own status.
pub open spec fn own_identity(status: Option<Seq<char>>) -> Result<(u32, u32), HelperRefusal> {
    match status {
        None => Err(HelperRefusal::CredentialsUnavailable),
        Some(status) => match process_identity(status) {
            Err(refusal) => Err(refusal),
            Ok((user, parent)) => if user == 0 {
                Err(HelperRefusal::SystemUser)
            } else {
                Ok((user, parent))
            },
        },
    }
}

/// Reads the user and the parent of this process, which must not be the
/// system's own user.
pub fn check_own_status(status: Option<&str>) -> (result: Result<(u32, u32), HelperRefusal>)
    ensures
        result == own_identity(status_text(status)),
{
    match status {
        None => Err(HelperRefusal::CredentialsUnavailable),
        Some(status) => match parse_process_identity(status) {
            Err(refusal) => Err(refusal),
            Ok((user, parent)) => if user == 0 {
                Err(HelperRefusal::SystemUser)
            } else {
                Ok((user, parent))
            },
        },
    }
}

/// Why the parent is refused by its user.
pub open spec fn parent_refusal(user: u32, parent_status: Option<Seq<char>>) -> Option<
    HelperRefusal,
> {
    match parent_status {
        None => Some(HelperRefusal::ParentCredentialsUnavailable),
        Some(status) => match process_identity(status) {
            Err(refusal) => Some(refusal),
            Ok((caller, _)) => if caller != user {
                Some(HelperRefusal::OtherUser)
            } else {
                None
            },
        },
    }
}

/// Accepts a parent that runs as the same user.
pub fn check_parent_status(user: u32, parent_status: Option<&str>) -> (result: Result<
    (),
    HelperRefusal,
>)
    ensures
        match result {
            Ok(()) => parent_refusal(user, status_text(parent_status)) is None,
            Err(refusal) => parent_refusal(user, status_text(parent_status)) == Some(refusal),
        },
{
    match parent_status {
        None => Err(HelperRefusal::ParentCredentialsUnavailable),
        Some(status) => match parse_process_identity(status) {
            Err(refusal) => Err(refusal),
            Ok((caller, _)) => if caller != user {
                Err(HelperRefusal::OtherUser)
            } else {
                Ok(())
            },
        },
    }
}

/// Whether an executable may start the helper: the installed one, or one of
/// its name that has the helper beside it.
pub open spec fn is_trusted(executable: Seq<u8>, helper_beside: bool) -> bool {
    paths::same_place(executable, "/usr/bin/redunar-tauri".spec_bytes()) || (paths::final_name(
        executable,
    ) == Some("redunar-tauri".spec_bytes()) && helper_beside)
}

pub fn trusted_parent(executable: &[u8], helper_beside: bool) -> (result: bool)
    ensures
        result == is_trusted(executable@, helper_beside),
{
    if paths::is_same_place(executable, "/usr/bin/redunar-tauri".as_bytes()) {
        return true;
    }
    match paths::file_name(executable) {
        Some(name) => text::same_bytes(name.as_slice(), "redunar-tauri".as_bytes())
            && helper_beside,
        None => false,
    }
}

/// Accepts a parent whose executable may start the helper.
pub fn check_parent_executable(executable: Option<&[u8]>, helper_beside: bool) -> (result: Result<
    (),
    HelperRefusal,
>)
    ensures
        result == (match executable {
            None => Err::<(), HelperRefusal>(HelperRefusal::ExecutableUnavailable),
            Some(executable) => if is_trusted(executable@, helper_beside) {
                Ok(())
            } else {
                Err(HelperRefusal::UntrustedParent)
            },
        }),
{
    match executable {
        None => Err(HelperRefusal::ExecutableUnavailable),
        Some(executable) => if trusted_parent(executable, helper_beside) {
            Ok(())
        } else {
            Err(HelperRefusal::UntrustedParent)
        },
    }
}

/// The path of the helper beside an executable, which the kernel names from
/// the root on.
pub fn helper_beside(executable: &[u8]) -> (result: Option<Vec<u8>>)
    requires
        paths::absolute(executable@),
    ensures
        match result {
            Some(path) => paths::parent_of(executable@) matches Some(directory) && path@
                == paths::joined(directory, "redunar-hotkey-helper".spec_bytes()),
            None => paths::parent_of(executable@) is None,
        },
{
    match paths::parent(executable) {
        Some(directory) => Some(
            paths::join(directory.as_slice(), "redunar-hotkey-helper".as_bytes()),
        ),
        None => None,
    }
}

/// A line that starts with `TOGGLE ` binds the overlay to the keys behind it.
pub proof fn toggle_lines_bind_the_overlay(shortcut: Seq<char>)
    ensures
        match chord_of(shortcut) {
            Ok((key, modifiers)) => stated_binding("TOGGLE "@ + shortcut) == Ok::<
                KeyChord,
                BindingError,
            >(KeyChord { key, modifiers, action: HotkeyAction::ToggleOverlay }),
            Err(error) => stated_binding("TOGGLE "@ + shortcut) == Err::<KeyChord, BindingError>(
                error,
            ),
        },
{
    let line = "TOGGLE "@ + shortcut;
    assert(line.take("TOGGLE "@.len() as int) =~= "TOGGLE "@);
    assert(line.skip("TOGGLE "@.len() as int) =~= shortcut);
}

/// A binding saves one of the lengths that a recording can have.
pub proof fn bindings_save_known_lengths(seconds: nat)
    ensures
        known_duration(seconds) <==> exists|duration: ReplayDuration|
            seconds == #[trigger] replay_settings::duration_seconds(duration),
{
    assert(replay_settings::duration_seconds(ReplayDuration::Seconds15) == 15);
    assert(replay_settings::duration_seconds(ReplayDuration::Seconds30) == 30);
    assert(replay_settings::duration_seconds(ReplayDuration::Seconds60) == 60);
    assert(replay_settings::duration_seconds(ReplayDuration::Seconds120) == 120);
    assert(replay_settings::duration_seconds(ReplayDuration::Seconds180) == 180);
    assert(replay_settings::duration_seconds(ReplayDuration::Seconds300) == 300);
    assert(replay_settings::duration_seconds(ReplayDuration::Seconds600) == 600);
    assert(replay_settings::duration_seconds(ReplayDuration::Seconds900) == 900);
}

/// Nine bindings are accepted at most, one of them for the overlay, and no two
/// for the same keys.
pub proof fn nine_bindings_are_accepted_at_most(lines: Seq<Seq<char>>, i: int, j: int)
    requires
        configured(Seq::empty(), lines) is Ok,
        0 <= i < j < configured(Seq::empty(), lines)->Ok_0.len(),
    ensures
        ({
            let accepted = configured(Seq::empty(), lines)->Ok_0;
            &&& accepted.len() <= 9
            &&& (accepted[i].key, accepted[i].modifiers) != (accepted[j].key, accepted[j].modifiers)
            &&& !(accepted[i].action == HotkeyAction::ToggleOverlay && accepted[j].action
                == HotkeyAction::ToggleOverlay)
        }),
{
    accepted_bindings_are_bounded(Seq::empty(), lines);
    let accepted = configured(Seq::empty(), lines)->Ok_0;
    assert(!same_keys(accepted[i], accepted[j]));
    if accepted[i].action == HotkeyAction::ToggleOverlay && accepted[j].action
        == HotkeyAction::ToggleOverlay {
        lemma_two_toggles(accepted, i, j);
    }
}

proof fn lemma_two_toggles(bindings: Seq<KeyChord>, i: int, j: int)
    requires
        0 <= i < j < bindings.len(),
        bindings[i].action == HotkeyAction::ToggleOverlay,
        bindings[j].action == HotkeyAction::ToggleOverlay,
    ensures
        toggles(bindings) >= 2,
    decreases bindings.len(),
{
    let shorter = bindings.drop_last();
    if j < bindings.len() - 1 {
        lemma_two_toggles(shorter, i, j);
    } else {
        lemma_one_toggle(shorter, i);
    }
}

proof fn lemma_one_toggle(bindings: Seq<KeyChord>, i: int)
    requires
        0 <= i < bindings.len(),
        bindings[i].action == HotkeyAction::ToggleOverlay,
    ensures
        toggles(bindings) >= 1,
    decreases bindings.len(),
{
    if i < bindings.len() - 1 {
        lemma_one_toggle(bindings.drop_last(), i);
    }
}

/// A helper serves the user whose rights its process has, the second of its four
/// numbers, and its parent has to have the same. The system's own user is
/// refused.
pub proof fn helpers_serve_their_user(
    status: Seq<char>,
    values: Seq<char>,
    user: u32,
    parent: u32,
    parent_status: Seq<char>,
)
    requires
        status_field(text::lines_of(status), "Uid:"@) == Some(values),
        text::words_of(values).len() == 4,
        text::words_of(values)[1] == text::decimal(user as nat),
        status_field(text::lines_of(status), "PPid:"@) == Some(seq!['\t'] + text::decimal(parent as nat)),
        parent > 0,
    ensures
        process_identity(status) == Ok::<(u32, u32), HelperRefusal>((user, parent)),
        own_identity(Some(status)) == if user == 0 {
            Err::<(u32, u32), HelperRefusal>(HelperRefusal::SystemUser)
        } else {
            Ok((user, parent))
        },
        effective_user(parent_status) is Some && parent_process(parent_status) is Some
            && effective_user(parent_status) != Some(user) ==> parent_refusal(
            user,
            Some(parent_status),
        ) == Some(HelperRefusal::OtherUser),
{
    text::decimal_round_trip(user as nat);
    text::decimal_round_trip(parent as nat);
    let digits = text::decimal(parent as nat);
    let value = seq!['\t'] + digits;
    assert(text::is_digit(digits[0]));
    assert(text::is_digit(digits[digits.len() - 1]));
    assert(value.skip(1) =~= digits);
    assert(value.drop_first() =~= digits);
    assert(text::is_space('\t'));
    assert(!text::is_space(digits[0]));
    assert(!text::is_space(digits.last()));
    assert(text::trimmed_start(digits) == digits);
    assert(text::trimmed_start(value) == text::trimmed_start(digits));
    assert(text::trimmed_end(digits) == digits);
}

/// The helper trusts the installed program, and a program of its name that the
/// helper lies beside. It trusts no other.
pub proof fn helpers_trust_the_program(executable: Seq<u8>)
    ensures
        is_trusted("/usr/bin/redunar-tauri".spec_bytes(), false),
        is_trusted(executable, false) ==> paths::same_place(
            executable,
            "/usr/bin/redunar-tauri".spec_bytes(),
        ),
        is_trusted(executable, true) ==> paths::same_place(
            executable,
            "/usr/bin/redunar-tauri".spec_bytes(),
        ) || paths::final_name(executable) == Some("redunar-tauri".spec_bytes()),
        paths::final_name(executable) == Some("redunar-tauri".spec_bytes()) ==> is_trusted(
            executable,
            true,
        ),
{
}

/// A shortcut is written with plus signs or in angle brackets, and spaces in it
/// mean nothing.
pub proof fn brackets_stand_for_plus_signs(shortcut: Seq<char>, character: char)
    ensures
        normalized(shortcut.push(' ')) == normalized(shortcut),
        normalized(shortcut.push('<')) == normalized(shortcut).push('+'),
        normalized(shortcut.push('>')) == normalized(shortcut).push('+'),
        character != ' ' && character != '<' && character != '>' ==> normalized(
            shortcut.push(character),
        ) == normalized(shortcut).push(character),
{
    assert(shortcut.push(' ').drop_last() =~= shortcut);
    assert(shortcut.push('<').drop_last() =~= shortcut);
    assert(shortcut.push('>').drop_last() =~= shortcut);
    assert(shortcut.push(character).drop_last() =~= shortcut);
}

/// A configuration ends at the line `START`, whatever its line ending: what
/// stands behind it is not looked at, and one without it is not complete.
pub proof fn configurations_end_at_start(
    bindings: Seq<KeyChord>,
    ending: Seq<char>,
    rest: Seq<Seq<char>>,
)
    requires
        ending == Seq::<char>::empty() || ending == seq!['\n'] || ending == seq!['\r', '\n'],
        bindings.len() > 0,
        toggles(bindings) <= 1,
    ensures
        configured(bindings, seq!["START"@ + ending] + rest) == Ok::<Seq<KeyChord>, BindingError>(
            bindings,
        ),
        configured(bindings, Seq::empty()) == Err::<Seq<KeyChord>, BindingError>(
            BindingError::EndedEarly,
        ),
        configured(Seq::empty(), seq!["START"@ + ending] + rest) == Err::<
            Seq<KeyChord>,
            BindingError,
        >(BindingError::Missing),
{
    reveal_strlit("START");
    let word = "START"@;
    let line = word + ending;
    let lines = seq![line] + rest;
    assert(lines[0] == line);
    assert(word.last() == 'T');
    assert(without_ending(word) == word);
    if ending == Seq::<char>::empty() {
        assert(line =~= word);
    } else if ending == seq!['\n'] {
        assert(line.drop_last() =~= word);
        assert(line.last() == '\n');
    } else {
        let shorter = line.drop_last();
        assert(line.last() == '\n');
        assert(shorter =~= word.push('\r'));
        assert(shorter.last() == '\r');
        assert(shorter.drop_last() =~= word);
        assert(without_ending(shorter) == without_ending(word));
    }
    assert(without_ending(line) == word);
}

} // verus!
