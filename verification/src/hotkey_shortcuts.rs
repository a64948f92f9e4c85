//! What a written shortcut asks of the keyboard.
use crate::hotkey_bindings;
use crate::hotkey_bindings::{BindingError, HotkeyAction, KeyChord};
use crate::hotkey_monitor;
use crate::hotkey_monitor::KeyEvent;
use crate::text;
use vstd::prelude::*;
use vstd::string::*;

verus! {

proof fn lemma_key_names()
    ensures
        "1"@ == seq!['1'],
        "2"@ == seq!['2'],
        "3"@ == seq!['3'],
        "4"@ == seq!['4'],
        "5"@ == seq!['5'],
        "6"@ == seq!['6'],
        "7"@ == seq!['7'],
        "8"@ == seq!['8'],
        "9"@ == seq!['9'],
        "0"@ == seq!['0'],
        "q"@ == seq!['q'],
        "w"@ == seq!['w'],
        "e"@ == seq!['e'],
        "r"@ == seq!['r'],
        "t"@ == seq!['t'],
        "y"@ == seq!['y'],
        "u"@ == seq!['u'],
        "i"@ == seq!['i'],
        "o"@ == seq!['o'],
        "p"@ == seq!['p'],
        "a"@ == seq!['a'],
        "s"@ == seq!['s'],
        "d"@ == seq!['d'],
        "f"@ == seq!['f'],
        "g"@ == seq!['g'],
        "h"@ == seq!['h'],
        "j"@ == seq!['j'],
        "k"@ == seq!['k'],
        "l"@ == seq!['l'],
        "z"@ == seq!['z'],
        "x"@ == seq!['x'],
        "c"@ == seq!['c'],
        "v"@ == seq!['v'],
        "b"@ == seq!['b'],
        "n"@ == seq!['n'],
        "m"@ == seq!['m'],
        "tab"@ == seq!['t', 'a', 'b'],
        "space"@ == seq!['s', 'p', 'a', 'c', 'e'],
        "enter"@ == seq!['e', 'n', 't', 'e', 'r'],
        "return"@ == seq!['r', 'e', 't', 'u', 'r', 'n'],
        "f1"@ == seq!['f', '1'],
        "f2"@ == seq!['f', '2'],
        "f3"@ == seq!['f', '3'],
        "f4"@ == seq!['f', '4'],
        "f5"@ == seq!['f', '5'],
        "f6"@ == seq!['f', '6'],
        "f7"@ == seq!['f', '7'],
        "f8"@ == seq!['f', '8'],
        "f9"@ == seq!['f', '9'],
        "f10"@ == seq!['f', '1', '0'],
        "f11"@ == seq!['f', '1', '1'],
        "f12"@ == seq!['f', '1', '2'],
        "ctrl"@ == seq!['c', 't', 'r', 'l'],
        "control"@ == seq!['c', 'o', 'n', 't', 'r', 'o', 'l'],
        "shift"@ == seq!['s', 'h', 'i', 'f', 't'],
        "alt"@ == seq!['a', 'l', 't'],
        "super"@ == seq!['s', 'u', 'p', 'e', 'r'],
        "meta"@ == seq!['m', 'e', 't', 'a'],
        "win"@ == seq!['w', 'i', 'n'],
{
    reveal_strlit("1");
    reveal_strlit("2");
    reveal_strlit("3");
    reveal_strlit("4");
    reveal_strlit("5");
    reveal_strlit("6");
    reveal_strlit("7");
    reveal_strlit("8");
    reveal_strlit("9");
    reveal_strlit("0");
    reveal_strlit("q");
    reveal_strlit("w");
    reveal_strlit("e");
    reveal_strlit("r");
    reveal_strlit("t");
    reveal_strlit("y");
    reveal_strlit("u");
    reveal_strlit("i");
    reveal_strlit("o");
    reveal_strlit("p");
    reveal_strlit("a");
    reveal_strlit("s");
    reveal_strlit("d");
    reveal_strlit("f");
    reveal_strlit("g");
    reveal_strlit("h");
    reveal_strlit("j");
    reveal_strlit("k");
    reveal_strlit("l");
    reveal_strlit("z");
    reveal_strlit("x");
    reveal_strlit("c");
    reveal_strlit("v");
    reveal_strlit("b");
    reveal_strlit("n");
    reveal_strlit("m");
    reveal_strlit("tab");
    reveal_strlit("space");
    reveal_strlit("enter");
    reveal_strlit("return");
    reveal_strlit("f1");
    reveal_strlit("f2");
    reveal_strlit("f3");
    reveal_strlit("f4");
    reveal_strlit("f5");
    reveal_strlit("f6");
    reveal_strlit("f7");
    reveal_strlit("f8");
    reveal_strlit("f9");
    reveal_strlit("f10");
    reveal_strlit("f11");
    reveal_strlit("f12");
    reveal_strlit("ctrl");
    reveal_strlit("control");
    reveal_strlit("shift");
    reveal_strlit("alt");
    reveal_strlit("super");
    reveal_strlit("meta");
    reveal_strlit("win");
    assert("1"@ =~= seq!['1']);
    assert("2"@ =~= seq!['2']);
    assert("3"@ =~= seq!['3']);
    assert("4"@ =~= seq!['4']);
    assert("5"@ =~= seq!['5']);
    assert("6"@ =~= seq!['6']);
    assert("7"@ =~= seq!['7']);
    assert("8"@ =~= seq!['8']);
    assert("9"@ =~= seq!['9']);
    assert("0"@ =~= seq!['0']);
    assert("q"@ =~= seq!['q']);
    assert("w"@ =~= seq!['w']);
    assert("e"@ =~= seq!['e']);
    assert("r"@ =~= seq!['r']);
    assert("t"@ =~= seq!['t']);
    assert("y"@ =~= seq!['y']);
    assert("u"@ =~= seq!['u']);
    assert("i"@ =~= seq!['i']);
    assert("o"@ =~= seq!['o']);
    assert("p"@ =~= seq!['p']);
    assert("a"@ =~= seq!['a']);
    assert("s"@ =~= seq!['s']);
    assert("d"@ =~= seq!['d']);
    assert("f"@ =~= seq!['f']);
    assert("g"@ =~= seq!['g']);
    assert("h"@ =~= seq!['h']);
    assert("j"@ =~= seq!['j']);
    assert("k"@ =~= seq!['k']);
    assert("l"@ =~= seq!['l']);
    assert("z"@ =~= seq!['z']);
    assert("x"@ =~= seq!['x']);
    assert("c"@ =~= seq!['c']);
    assert("v"@ =~= seq!['v']);
    assert("b"@ =~= seq!['b']);
    assert("n"@ =~= seq!['n']);
    assert("m"@ =~= seq!['m']);
    assert("tab"@ =~= seq!['t', 'a', 'b']);
    assert("space"@ =~= seq!['s', 'p', 'a', 'c', 'e']);
    assert("enter"@ =~= seq!['e', 'n', 't', 'e', 'r']);
    assert("return"@ =~= seq!['r', 'e', 't', 'u', 'r', 'n']);
    assert("f1"@ =~= seq!['f', '1']);
    assert("f2"@ =~= seq!['f', '2']);
    assert("f3"@ =~= seq!['f', '3']);
    assert("f4"@ =~= seq!['f', '4']);
    assert("f5"@ =~= seq!['f', '5']);
    assert("f6"@ =~= seq!['f', '6']);
    assert("f7"@ =~= seq!['f', '7']);
    assert("f8"@ =~= seq!['f', '8']);
    assert("f9"@ =~= seq!['f', '9']);
    assert("f10"@ =~= seq!['f', '1', '0']);
    assert("f11"@ =~= seq!['f', '1', '1']);
    assert("f12"@ =~= seq!['f', '1', '2']);
    assert("ctrl"@ =~= seq!['c', 't', 'r', 'l']);
    assert("control"@ =~= seq!['c', 'o', 'n', 't', 'r', 'o', 'l']);
    assert("shift"@ =~= seq!['s', 'h', 'i', 'f', 't']);
    assert("alt"@ =~= seq!['a', 'l', 't']);
    assert("super"@ =~= seq!['s', 'u', 'p', 'e', 'r']);
    assert("meta"@ =~= seq!['m', 'e', 't', 'a']);
    assert("win"@ =~= seq!['w', 'i', 'n']);
}

/// The number of a key in a row of the keyboard whose keys are numbered one
/// after the other, where the row has it.
pub open spec fn row_number(row: Seq<char>, first: int, key: char) -> Option<int> {
    if row.contains(key) {
        Some(first + text::first_index(row, key))
    } else {
        None
    }
}

/// The key of one character, when its code is what a row of the keyboard gives.
proof fn lemma_single_key(key: char)
    ensures
        key == '1' ==> hotkey_bindings::named_key(seq![key]) == Some(2u16),
        key == '2' ==> hotkey_bindings::named_key(seq![key]) == Some(3u16),
        key == '3' ==> hotkey_bindings::named_key(seq![key]) == Some(4u16),
        key == '4' ==> hotkey_bindings::named_key(seq![key]) == Some(5u16),
        key == '5' ==> hotkey_bindings::named_key(seq![key]) == Some(6u16),
        key == '6' ==> hotkey_bindings::named_key(seq![key]) == Some(7u16),
        key == '7' ==> hotkey_bindings::named_key(seq![key]) == Some(8u16),
        key == '8' ==> hotkey_bindings::named_key(seq![key]) == Some(9u16),
        key == '9' ==> hotkey_bindings::named_key(seq![key]) == Some(10u16),
        key == '0' ==> hotkey_bindings::named_key(seq![key]) == Some(11u16),
        key == 'q' ==> hotkey_bindings::named_key(seq![key]) == Some(16u16),
        key == 'w' ==> hotkey_bindings::named_key(seq![key]) == Some(17u16),
        key == 'e' ==> hotkey_bindings::named_key(seq![key]) == Some(18u16),
        key == 'r' ==> hotkey_bindings::named_key(seq![key]) == Some(19u16),
        key == 't' ==> hotkey_bindings::named_key(seq![key]) == Some(20u16),
        key == 'y' ==> hotkey_bindings::named_key(seq![key]) == Some(21u16),
        key == 'u' ==> hotkey_bindings::named_key(seq![key]) == Some(22u16),
        key == 'i' ==> hotkey_bindings::named_key(seq![key]) == Some(23u16),
        key == 'o' ==> hotkey_bindings::named_key(seq![key]) == Some(24u16),
        key == 'p' ==> hotkey_bindings::named_key(seq![key]) == Some(25u16),
        key == 'a' ==> hotkey_bindings::named_key(seq![key]) == Some(30u16),
        key == 's' ==> hotkey_bindings::named_key(seq![key]) == Some(31u16),
        key == 'd' ==> hotkey_bindings::named_key(seq![key]) == Some(32u16),
        key == 'f' ==> hotkey_bindings::named_key(seq![key]) == Some(33u16),
        key == 'g' ==> hotkey_bindings::named_key(seq![key]) == Some(34u16),
        key == 'h' ==> hotkey_bindings::named_key(seq![key]) == Some(35u16),
        key == 'j' ==> hotkey_bindings::named_key(seq![key]) == Some(36u16),
        key == 'k' ==> hotkey_bindings::named_key(seq![key]) == Some(37u16),
        key == 'l' ==> hotkey_bindings::named_key(seq![key]) == Some(38u16),
        key == 'z' ==> hotkey_bindings::named_key(seq![key]) == Some(44u16),
        key == 'x' ==> hotkey_bindings::named_key(seq![key]) == Some(45u16),
        key == 'c' ==> hotkey_bindings::named_key(seq![key]) == Some(46u16),
        key == 'v' ==> hotkey_bindings::named_key(seq![key]) == Some(47u16),
        key == 'b' ==> hotkey_bindings::named_key(seq![key]) == Some(48u16),
        key == 'n' ==> hotkey_bindings::named_key(seq![key]) == Some(49u16),
        key == 'm' ==> hotkey_bindings::named_key(seq![key]) == Some(50u16),
{
    lemma_key_names();
    let part = seq![key];
    if text::alike(part, "1"@) {
        text::lemma_alike_at(part, "1"@, 0);
    }
    if key == '1' {
        text::lemma_alike_by_place(part, "1"@);
    }
    if text::alike(part, "2"@) {
        text::lemma_alike_at(part, "2"@, 0);
    }
    if key == '2' {
        text::lemma_alike_by_place(part, "2"@);
    }
    if text::alike(part, "3"@) {
        text::lemma_alike_at(part, "3"@, 0);
    }
    if key == '3' {
        text::lemma_alike_by_place(part, "3"@);
    }
    if text::alike(part, "4"@) {
        text::lemma_alike_at(part, "4"@, 0);
    }
    if key == '4' {
        text::lemma_alike_by_place(part, "4"@);
    }
    if text::alike(part, "5"@) {
        text::lemma_alike_at(part, "5"@, 0);
    }
    if key == '5' {
        text::lemma_alike_by_place(part, "5"@);
    }
    if text::alike(part, "6"@) {
        text::lemma_alike_at(part, "6"@, 0);
    }
    if key == '6' {
        text::lemma_alike_by_place(part, "6"@);
    }
    if text::alike(part, "7"@) {
        text::lemma_alike_at(part, "7"@, 0);
    }
    if key == '7' {
        text::lemma_alike_by_place(part, "7"@);
    }
    if text::alike(part, "8"@) {
        text::lemma_alike_at(part, "8"@, 0);
    }
    if key == '8' {
        text::lemma_alike_by_place(part, "8"@);
    }
    if text::alike(part, "9"@) {
        text::lemma_alike_at(part, "9"@, 0);
    }
    if key == '9' {
        text::lemma_alike_by_place(part, "9"@);
    }
    if text::alike(part, "0"@) {
        text::lemma_alike_at(part, "0"@, 0);
    }
    if key == '0' {
        text::lemma_alike_by_place(part, "0"@);
    }
    if text::alike(part, "q"@) {
        text::lemma_alike_at(part, "q"@, 0);
    }
    if key == 'q' {
        text::lemma_alike_by_place(part, "q"@);
    }
    if text::alike(part, "w"@) {
        text::lemma_alike_at(part, "w"@, 0);
    }
    if key == 'w' {
        text::lemma_alike_by_place(part, "w"@);
    }
    if text::alike(part, "e"@) {
        text::lemma_alike_at(part, "e"@, 0);
    }
    if key == 'e' {
        text::lemma_alike_by_place(part, "e"@);
    }
    if text::alike(part, "r"@) {
        text::lemma_alike_at(part, "r"@, 0);
    }
    if key == 'r' {
        text::lemma_alike_by_place(part, "r"@);
    }
    if text::alike(part, "t"@) {
        text::lemma_alike_at(part, "t"@, 0);
    }
    if key == 't' {
        text::lemma_alike_by_place(part, "t"@);
    }
    if text::alike(part, "y"@) {
        text::lemma_alike_at(part, "y"@, 0);
    }
    if key == 'y' {
        text::lemma_alike_by_place(part, "y"@);
    }
    if text::alike(part, "u"@) {
        text::lemma_alike_at(part, "u"@, 0);
    }
    if key == 'u' {
        text::lemma_alike_by_place(part, "u"@);
    }
    if text::alike(part, "i"@) {
        text::lemma_alike_at(part, "i"@, 0);
    }
    if key == 'i' {
        text::lemma_alike_by_place(part, "i"@);
    }
    if text::alike(part, "o"@) {
        text::lemma_alike_at(part, "o"@, 0);
    }
    if key == 'o' {
        text::lemma_alike_by_place(part, "o"@);
    }
    if text::alike(part, "p"@) {
        text::lemma_alike_at(part, "p"@, 0);
    }
    if key == 'p' {
        text::lemma_alike_by_place(part, "p"@);
    }
    if text::alike(part, "a"@) {
        text::lemma_alike_at(part, "a"@, 0);
    }
    if key == 'a' {
        text::lemma_alike_by_place(part, "a"@);
    }
    if text::alike(part, "s"@) {
        text::lemma_alike_at(part, "s"@, 0);
    }
    if key == 's' {
        text::lemma_alike_by_place(part, "s"@);
    }
    if text::alike(part, "d"@) {
        text::lemma_alike_at(part, "d"@, 0);
    }
    if key == 'd' {
        text::lemma_alike_by_place(part, "d"@);
    }
    if text::alike(part, "f"@) {
        text::lemma_alike_at(part, "f"@, 0);
    }
    if key == 'f' {
        text::lemma_alike_by_place(part, "f"@);
    }
    if text::alike(part, "g"@) {
        text::lemma_alike_at(part, "g"@, 0);
    }
    if key == 'g' {
        text::lemma_alike_by_place(part, "g"@);
    }
    if text::alike(part, "h"@) {
        text::lemma_alike_at(part, "h"@, 0);
    }
    if key == 'h' {
        text::lemma_alike_by_place(part, "h"@);
    }
    if text::alike(part, "j"@) {
        text::lemma_alike_at(part, "j"@, 0);
    }
    if key == 'j' {
        text::lemma_alike_by_place(part, "j"@);
    }
    if text::alike(part, "k"@) {
        text::lemma_alike_at(part, "k"@, 0);
    }
    if key == 'k' {
        text::lemma_alike_by_place(part, "k"@);
    }
    if text::alike(part, "l"@) {
        text::lemma_alike_at(part, "l"@, 0);
    }
    if key == 'l' {
        text::lemma_alike_by_place(part, "l"@);
    }
    if text::alike(part, "z"@) {
        text::lemma_alike_at(part, "z"@, 0);
    }
    if key == 'z' {
        text::lemma_alike_by_place(part, "z"@);
    }
    if text::alike(part, "x"@) {
        text::lemma_alike_at(part, "x"@, 0);
    }
    if key == 'x' {
        text::lemma_alike_by_place(part, "x"@);
    }
    if text::alike(part, "c"@) {
        text::lemma_alike_at(part, "c"@, 0);
    }
    if key == 'c' {
        text::lemma_alike_by_place(part, "c"@);
    }
    if text::alike(part, "v"@) {
        text::lemma_alike_at(part, "v"@, 0);
    }
    if key == 'v' {
        text::lemma_alike_by_place(part, "v"@);
    }
    if text::alike(part, "b"@) {
        text::lemma_alike_at(part, "b"@, 0);
    }
    if key == 'b' {
        text::lemma_alike_by_place(part, "b"@);
    }
    if text::alike(part, "n"@) {
        text::lemma_alike_at(part, "n"@, 0);
    }
    if key == 'n' {
        text::lemma_alike_by_place(part, "n"@);
    }
    if text::alike(part, "m"@) {
        text::lemma_alike_at(part, "m"@, 0);
    }
    if key == 'm' {
        text::lemma_alike_by_place(part, "m"@);
    }
    text::lemma_alike_length(part, "tab"@);
    text::lemma_alike_length(part, "space"@);
    text::lemma_alike_length(part, "enter"@);
    text::lemma_alike_length(part, "return"@);
    text::lemma_alike_length(part, "f1"@);
    text::lemma_alike_length(part, "f2"@);
    text::lemma_alike_length(part, "f3"@);
    text::lemma_alike_length(part, "f4"@);
    text::lemma_alike_length(part, "f5"@);
    text::lemma_alike_length(part, "f6"@);
    text::lemma_alike_length(part, "f7"@);
    text::lemma_alike_length(part, "f8"@);
    text::lemma_alike_length(part, "f9"@);
    text::lemma_alike_length(part, "f10"@);
    text::lemma_alike_length(part, "f11"@);
    text::lemma_alike_length(part, "f12"@);
}

/// Keys of a row are numbered one after the other, as the kernel does: the
/// digits from 2 on, and the three rows of letters from 16, 30 and 44 on.
pub proof fn rows_are_numbered_in_order(place: int)
    ensures
        0 <= place < "1234567890"@.len() ==> hotkey_bindings::named_key(seq!["1234567890"@[place]])
            == Some((2 + place) as u16),
        0 <= place < "qwertyuiop"@.len() ==> hotkey_bindings::named_key(seq!["qwertyuiop"@[place]])
            == Some((16 + place) as u16),
        0 <= place < "asdfghjkl"@.len() ==> hotkey_bindings::named_key(seq!["asdfghjkl"@[place]])
            == Some((30 + place) as u16),
        0 <= place < "zxcvbnm"@.len() ==> hotkey_bindings::named_key(seq!["zxcvbnm"@[place]])
            == Some((44 + place) as u16),
{
    reveal_strlit("1234567890");
    if 0 <= place < "1234567890"@.len() {
        lemma_single_key("1234567890"@[place]);
    }
    reveal_strlit("qwertyuiop");
    if 0 <= place < "qwertyuiop"@.len() {
        lemma_single_key("qwertyuiop"@[place]);
    }
    reveal_strlit("asdfghjkl");
    if 0 <= place < "asdfghjkl"@.len() {
        lemma_single_key("asdfghjkl"@[place]);
    }
    reveal_strlit("zxcvbnm");
    if 0 <= place < "zxcvbnm"@.len() {
        lemma_single_key("zxcvbnm"@[place]);
    }
}

/// The other keys have the kernel's numbers: those of the function keys follow
/// each other up to the tenth.
pub proof fn named_keys_have_their_numbers()
    ensures
        hotkey_bindings::named_key("tab"@) == Some(15u16),
        hotkey_bindings::named_key("enter"@) == Some(28u16),
        hotkey_bindings::named_key("return"@) == Some(28u16),
        hotkey_bindings::named_key("space"@) == Some(57u16),
        hotkey_bindings::named_key("f1"@) == Some(59u16),
        hotkey_bindings::named_key("f2"@) == Some(60u16),
        hotkey_bindings::named_key("f3"@) == Some(61u16),
        hotkey_bindings::named_key("f4"@) == Some(62u16),
        hotkey_bindings::named_key("f5"@) == Some(63u16),
        hotkey_bindings::named_key("f6"@) == Some(64u16),
        hotkey_bindings::named_key("f7"@) == Some(65u16),
        hotkey_bindings::named_key("f8"@) == Some(66u16),
        hotkey_bindings::named_key("f9"@) == Some(67u16),
        hotkey_bindings::named_key("f10"@) == Some(68u16),
        hotkey_bindings::named_key("f11"@) == Some(87u16),
        hotkey_bindings::named_key("f12"@) == Some(88u16),
{
    lemma_key_names();
    lemma_word_key("tab"@);
    text::lemma_alike_by_place("tab"@, "tab"@);
    if text::alike("tab"@, "f10"@) {
        text::lemma_alike_at("tab"@, "f10"@, 0);
    }
    if text::alike("tab"@, "f11"@) {
        text::lemma_alike_at("tab"@, "f11"@, 0);
    }
    if text::alike("tab"@, "f12"@) {
        text::lemma_alike_at("tab"@, "f12"@, 0);
    }
    lemma_word_key("enter"@);
    text::lemma_alike_by_place("enter"@, "enter"@);
    if text::alike("enter"@, "space"@) {
        text::lemma_alike_at("enter"@, "space"@, 0);
    }
    lemma_word_key("return"@);
    text::lemma_alike_by_place("return"@, "return"@);
    lemma_word_key("space"@);
    text::lemma_alike_by_place("space"@, "space"@);
    if text::alike("space"@, "enter"@) {
        text::lemma_alike_at("space"@, "enter"@, 0);
    }
    lemma_word_key("f1"@);
    text::lemma_alike_by_place("f1"@, "f1"@);
    if text::alike("f1"@, "f2"@) {
        text::lemma_alike_at("f1"@, "f2"@, 1);
    }
    if text::alike("f1"@, "f3"@) {
        text::lemma_alike_at("f1"@, "f3"@, 1);
    }
    if text::alike("f1"@, "f4"@) {
        text::lemma_alike_at("f1"@, "f4"@, 1);
    }
    if text::alike("f1"@, "f5"@) {
        text::lemma_alike_at("f1"@, "f5"@, 1);
    }
    if text::alike("f1"@, "f6"@) {
        text::lemma_alike_at("f1"@, "f6"@, 1);
    }
    if text::alike("f1"@, "f7"@) {
        text::lemma_alike_at("f1"@, "f7"@, 1);
    }
    if text::alike("f1"@, "f8"@) {
        text::lemma_alike_at("f1"@, "f8"@, 1);
    }
    if text::alike("f1"@, "f9"@) {
        text::lemma_alike_at("f1"@, "f9"@, 1);
    }
    lemma_word_key("f2"@);
    text::lemma_alike_by_place("f2"@, "f2"@);
    if text::alike("f2"@, "f1"@) {
        text::lemma_alike_at("f2"@, "f1"@, 1);
    }
    if text::alike("f2"@, "f3"@) {
        text::lemma_alike_at("f2"@, "f3"@, 1);
    }
    if text::alike("f2"@, "f4"@) {
        text::lemma_alike_at("f2"@, "f4"@, 1);
    }
    if text::alike("f2"@, "f5"@) {
        text::lemma_alike_at("f2"@, "f5"@, 1);
    }
    if text::alike("f2"@, "f6"@) {
        text::lemma_alike_at("f2"@, "f6"@, 1);
    }
    if text::alike("f2"@, "f7"@) {
        text::lemma_alike_at("f2"@, "f7"@, 1);
    }
    if text::alike("f2"@, "f8"@) {
        text::lemma_alike_at("f2"@, "f8"@, 1);
    }
    if text::alike("f2"@, "f9"@) {
        text::lemma_alike_at("f2"@, "f9"@, 1);
    }
    lemma_word_key("f3"@);
    text::lemma_alike_by_place("f3"@, "f3"@);
    if text::alike("f3"@, "f1"@) {
        text::lemma_alike_at("f3"@, "f1"@, 1);
    }
    if text::alike("f3"@, "f2"@) {
        text::lemma_alike_at("f3"@, "f2"@, 1);
    }
    if text::alike("f3"@, "f4"@) {
        text::lemma_alike_at("f3"@, "f4"@, 1);
    }
    if text::alike("f3"@, "f5"@) {
        text::lemma_alike_at("f3"@, "f5"@, 1);
    }
    if text::alike("f3"@, "f6"@) {
        text::lemma_alike_at("f3"@, "f6"@, 1);
    }
    if text::alike("f3"@, "f7"@) {
        text::lemma_alike_at("f3"@, "f7"@, 1);
    }
    if text::alike("f3"@, "f8"@) {
        text::lemma_alike_at("f3"@, "f8"@, 1);
    }
    if text::alike("f3"@, "f9"@) {
        text::lemma_alike_at("f3"@, "f9"@, 1);
    }
    lemma_word_key("f4"@);
    text::lemma_alike_by_place("f4"@, "f4"@);
    if text::alike("f4"@, "f1"@) {
        text::lemma_alike_at("f4"@, "f1"@, 1);
    }
    if text::alike("f4"@, "f2"@) {
        text::lemma_alike_at("f4"@, "f2"@, 1);
    }
    if text::alike("f4"@, "f3"@) {
        text::lemma_alike_at("f4"@, "f3"@, 1);
    }
    if text::alike("f4"@, "f5"@) {
        text::lemma_alike_at("f4"@, "f5"@, 1);
    }
    if text::alike("f4"@, "f6"@) {
        text::lemma_alike_at("f4"@, "f6"@, 1);
    }
    if text::alike("f4"@, "f7"@) {
        text::lemma_alike_at("f4"@, "f7"@, 1);
    }
    if text::alike("f4"@, "f8"@) {
        text::lemma_alike_at("f4"@, "f8"@, 1);
    }
    if text::alike("f4"@, "f9"@) {
        text::lemma_alike_at("f4"@, "f9"@, 1);
    }
    lemma_word_key("f5"@);
    text::lemma_alike_by_place("f5"@, "f5"@);
    if text::alike("f5"@, "f1"@) {
        text::lemma_alike_at("f5"@, "f1"@, 1);
    }
    if text::alike("f5"@, "f2"@) {
        text::lemma_alike_at("f5"@, "f2"@, 1);
    }
    if text::alike("f5"@, "f3"@) {
        text::lemma_alike_at("f5"@, "f3"@, 1);
    }
    if text::alike("f5"@, "f4"@) {
        text::lemma_alike_at("f5"@, "f4"@, 1);
    }
    if text::alike("f5"@, "f6"@) {
        text::lemma_alike_at("f5"@, "f6"@, 1);
    }
    if text::alike("f5"@, "f7"@) {
        text::lemma_alike_at("f5"@, "f7"@, 1);
    }
    if text::alike("f5"@, "f8"@) {
        text::lemma_alike_at("f5"@, "f8"@, 1);
    }
    if text::alike("f5"@, "f9"@) {
        text::lemma_alike_at("f5"@, "f9"@, 1);
    }
    lemma_word_key("f6"@);
    text::lemma_alike_by_place("f6"@, "f6"@);
    if text::alike("f6"@, "f1"@) {
        text::lemma_alike_at("f6"@, "f1"@, 1);
    }
    if text::alike("f6"@, "f2"@) {
        text::lemma_alike_at("f6"@, "f2"@, 1);
    }
    if text::alike("f6"@, "f3"@) {
        text::lemma_alike_at("f6"@, "f3"@, 1);
    }
    if text::alike("f6"@, "f4"@) {
        text::lemma_alike_at("f6"@, "f4"@, 1);
    }
    if text::alike("f6"@, "f5"@) {
        text::lemma_alike_at("f6"@, "f5"@, 1);
    }
    if text::alike("f6"@, "f7"@) {
        text::lemma_alike_at("f6"@, "f7"@, 1);
    }
    if text::alike("f6"@, "f8"@) {
        text::lemma_alike_at("f6"@, "f8"@, 1);
    }
    if text::alike("f6"@, "f9"@) {
        text::lemma_alike_at("f6"@, "f9"@, 1);
    }
    lemma_word_key("f7"@);
    text::lemma_alike_by_place("f7"@, "f7"@);
    if text::alike("f7"@, "f1"@) {
        text::lemma_alike_at("f7"@, "f1"@, 1);
    }
    if text::alike("f7"@, "f2"@) {
        text::lemma_alike_at("f7"@, "f2"@, 1);
    }
    if text::alike("f7"@, "f3"@) {
        text::lemma_alike_at("f7"@, "f3"@, 1);
    }
    if text::alike("f7"@, "f4"@) {
        text::lemma_alike_at("f7"@, "f4"@, 1);
    }
    if text::alike("f7"@, "f5"@) {
        text::lemma_alike_at("f7"@, "f5"@, 1);
    }
    if text::alike("f7"@, "f6"@) {
        text::lemma_alike_at("f7"@, "f6"@, 1);
    }
    if text::alike("f7"@, "f8"@) {
        text::lemma_alike_at("f7"@, "f8"@, 1);
    }
    if text::alike("f7"@, "f9"@) {
        text::lemma_alike_at("f7"@, "f9"@, 1);
    }
    lemma_word_key("f8"@);
    text::lemma_alike_by_place("f8"@, "f8"@);
    if text::alike("f8"@, "f1"@) {
        text::lemma_alike_at("f8"@, "f1"@, 1);
    }
    if text::alike("f8"@, "f2"@) {
        text::lemma_alike_at("f8"@, "f2"@, 1);
    }
    if text::alike("f8"@, "f3"@) {
        text::lemma_alike_at("f8"@, "f3"@, 1);
    }
    if text::alike("f8"@, "f4"@) {
        text::lemma_alike_at("f8"@, "f4"@, 1);
    }
    if text::alike("f8"@, "f5"@) {
        text::lemma_alike_at("f8"@, "f5"@, 1);
    }
    if text::alike("f8"@, "f6"@) {
        text::lemma_alike_at("f8"@, "f6"@, 1);
    }
    if text::alike("f8"@, "f7"@) {
        text::lemma_alike_at("f8"@, "f7"@, 1);
    }
    if text::alike("f8"@, "f9"@) {
        text::lemma_alike_at("f8"@, "f9"@, 1);
    }
    lemma_word_key("f9"@);
    text::lemma_alike_by_place("f9"@, "f9"@);
    if text::alike("f9"@, "f1"@) {
        text::lemma_alike_at("f9"@, "f1"@, 1);
    }
    if text::alike("f9"@, "f2"@) {
        text::lemma_alike_at("f9"@, "f2"@, 1);
    }
    if text::alike("f9"@, "f3"@) {
        text::lemma_alike_at("f9"@, "f3"@, 1);
    }
    if text::alike("f9"@, "f4"@) {
        text::lemma_alike_at("f9"@, "f4"@, 1);
    }
    if text::alike("f9"@, "f5"@) {
        text::lemma_alike_at("f9"@, "f5"@, 1);
    }
    if text::alike("f9"@, "f6"@) {
        text::lemma_alike_at("f9"@, "f6"@, 1);
    }
    if text::alike("f9"@, "f7"@) {
        text::lemma_alike_at("f9"@, "f7"@, 1);
    }
    if text::alike("f9"@, "f8"@) {
        text::lemma_alike_at("f9"@, "f8"@, 1);
    }
    lemma_word_key("f10"@);
    text::lemma_alike_by_place("f10"@, "f10"@);
    if text::alike("f10"@, "tab"@) {
        text::lemma_alike_at("f10"@, "tab"@, 0);
    }
    if text::alike("f10"@, "f11"@) {
        text::lemma_alike_at("f10"@, "f11"@, 2);
    }
    if text::alike("f10"@, "f12"@) {
        text::lemma_alike_at("f10"@, "f12"@, 2);
    }
    lemma_word_key("f11"@);
    text::lemma_alike_by_place("f11"@, "f11"@);
    if text::alike("f11"@, "tab"@) {
        text::lemma_alike_at("f11"@, "tab"@, 0);
    }
    if text::alike("f11"@, "f10"@) {
        text::lemma_alike_at("f11"@, "f10"@, 2);
    }
    if text::alike("f11"@, "f12"@) {
        text::lemma_alike_at("f11"@, "f12"@, 2);
    }
    lemma_word_key("f12"@);
    text::lemma_alike_by_place("f12"@, "f12"@);
    if text::alike("f12"@, "tab"@) {
        text::lemma_alike_at("f12"@, "tab"@, 0);
    }
    if text::alike("f12"@, "f10"@) {
        text::lemma_alike_at("f12"@, "f10"@, 2);
    }
    if text::alike("f12"@, "f11"@) {
        text::lemma_alike_at("f12"@, "f11"@, 2);
    }
}

/// A word is like no key of another length.
proof fn lemma_word_key(word: Seq<char>)
    ensures
        text::alike(word, "1"@) ==> word.len() == 1,
        text::alike(word, "2"@) ==> word.len() == 1,
        text::alike(word, "3"@) ==> word.len() == 1,
        text::alike(word, "4"@) ==> word.len() == 1,
        text::alike(word, "5"@) ==> word.len() == 1,
        text::alike(word, "6"@) ==> word.len() == 1,
        text::alike(word, "7"@) ==> word.len() == 1,
        text::alike(word, "8"@) ==> word.len() == 1,
        text::alike(word, "9"@) ==> word.len() == 1,
        text::alike(word, "0"@) ==> word.len() == 1,
        text::alike(word, "q"@) ==> word.len() == 1,
        text::alike(word, "w"@) ==> word.len() == 1,
        text::alike(word, "e"@) ==> word.len() == 1,
        text::alike(word, "r"@) ==> word.len() == 1,
        text::alike(word, "t"@) ==> word.len() == 1,
        text::alike(word, "y"@) ==> word.len() == 1,
        text::alike(word, "u"@) ==> word.len() == 1,
        text::alike(word, "i"@) ==> word.len() == 1,
        text::alike(word, "o"@) ==> word.len() == 1,
        text::alike(word, "p"@) ==> word.len() == 1,
        text::alike(word, "a"@) ==> word.len() == 1,
        text::alike(word, "s"@) ==> word.len() == 1,
        text::alike(word, "d"@) ==> word.len() == 1,
        text::alike(word, "f"@) ==> word.len() == 1,
        text::alike(word, "g"@) ==> word.len() == 1,
        text::alike(word, "h"@) ==> word.len() == 1,
        text::alike(word, "j"@) ==> word.len() == 1,
        text::alike(word, "k"@) ==> word.len() == 1,
        text::alike(word, "l"@) ==> word.len() == 1,
        text::alike(word, "z"@) ==> word.len() == 1,
        text::alike(word, "x"@) ==> word.len() == 1,
        text::alike(word, "c"@) ==> word.len() == 1,
        text::alike(word, "v"@) ==> word.len() == 1,
        text::alike(word, "b"@) ==> word.len() == 1,
        text::alike(word, "n"@) ==> word.len() == 1,
        text::alike(word, "m"@) ==> word.len() == 1,
        text::alike(word, "tab"@) ==> word.len() == 3,
        text::alike(word, "space"@) ==> word.len() == 5,
        text::alike(word, "enter"@) ==> word.len() == 5,
        text::alike(word, "return"@) ==> word.len() == 6,
        text::alike(word, "f1"@) ==> word.len() == 2,
        text::alike(word, "f2"@) ==> word.len() == 2,
        text::alike(word, "f3"@) ==> word.len() == 2,
        text::alike(word, "f4"@) ==> word.len() == 2,
        text::alike(word, "f5"@) ==> word.len() == 2,
        text::alike(word, "f6"@) ==> word.len() == 2,
        text::alike(word, "f7"@) ==> word.len() == 2,
        text::alike(word, "f8"@) ==> word.len() == 2,
        text::alike(word, "f9"@) ==> word.len() == 2,
        text::alike(word, "f10"@) ==> word.len() == 3,
        text::alike(word, "f11"@) ==> word.len() == 3,
        text::alike(word, "f12"@) ==> word.len() == 3,
{
    lemma_key_names();
    text::lemma_alike_length(word, "1"@);
    text::lemma_alike_length(word, "2"@);
    text::lemma_alike_length(word, "3"@);
    text::lemma_alike_length(word, "4"@);
    text::lemma_alike_length(word, "5"@);
    text::lemma_alike_length(word, "6"@);
    text::lemma_alike_length(word, "7"@);
    text::lemma_alike_length(word, "8"@);
    text::lemma_alike_length(word, "9"@);
    text::lemma_alike_length(word, "0"@);
    text::lemma_alike_length(word, "q"@);
    text::lemma_alike_length(word, "w"@);
    text::lemma_alike_length(word, "e"@);
    text::lemma_alike_length(word, "r"@);
    text::lemma_alike_length(word, "t"@);
    text::lemma_alike_length(word, "y"@);
    text::lemma_alike_length(word, "u"@);
    text::lemma_alike_length(word, "i"@);
    text::lemma_alike_length(word, "o"@);
    text::lemma_alike_length(word, "p"@);
    text::lemma_alike_length(word, "a"@);
    text::lemma_alike_length(word, "s"@);
    text::lemma_alike_length(word, "d"@);
    text::lemma_alike_length(word, "f"@);
    text::lemma_alike_length(word, "g"@);
    text::lemma_alike_length(word, "h"@);
    text::lemma_alike_length(word, "j"@);
    text::lemma_alike_length(word, "k"@);
    text::lemma_alike_length(word, "l"@);
    text::lemma_alike_length(word, "z"@);
    text::lemma_alike_length(word, "x"@);
    text::lemma_alike_length(word, "c"@);
    text::lemma_alike_length(word, "v"@);
    text::lemma_alike_length(word, "b"@);
    text::lemma_alike_length(word, "n"@);
    text::lemma_alike_length(word, "m"@);
    text::lemma_alike_length(word, "tab"@);
    text::lemma_alike_length(word, "space"@);
    text::lemma_alike_length(word, "enter"@);
    text::lemma_alike_length(word, "return"@);
    text::lemma_alike_length(word, "f1"@);
    text::lemma_alike_length(word, "f2"@);
    text::lemma_alike_length(word, "f3"@);
    text::lemma_alike_length(word, "f4"@);
    text::lemma_alike_length(word, "f5"@);
    text::lemma_alike_length(word, "f6"@);
    text::lemma_alike_length(word, "f7"@);
    text::lemma_alike_length(word, "f8"@);
    text::lemma_alike_length(word, "f9"@);
    text::lemma_alike_length(word, "f10"@);
    text::lemma_alike_length(word, "f11"@);
    text::lemma_alike_length(word, "f12"@);
}

/// Parts of which none is empty are read back whole.
proof fn lemma_nonempty_fields(items: Seq<char>, separator: char)
    requires
        forall|i: int|
            0 <= i < text::fields_of(items, separator).len() ==> (#[trigger] text::fields_of(
                items,
                separator,
            )[i]).len() > 0,
    ensures
        text::nonempty_parts(items, separator) == text::fields_of(items, separator),
    decreases items.len(),
{
    let fields = text::fields_of(items, separator);
    let end = text::first_index(items, separator);
    text::lemma_first_index(items, separator);
    assert(fields[0].len() > 0);
    if 0 <= end < items.len() {
        let rest = items.skip(end + 1);
        let later = text::fields_of(rest, separator);
        assert(fields =~= seq![items.take(end)] + later);
        assert forall|i: int| 0 <= i < later.len() implies (#[trigger] later[i]).len() > 0 by {
            assert(fields[i + 1] == later[i]);
        }
        lemma_nonempty_fields(rest, separator);
    }
}

proof fn lemma_normal(shortcut: Seq<char>)
    requires
        !shortcut.contains(' '),
        !shortcut.contains('<'),
        !shortcut.contains('>'),
    ensures
        hotkey_bindings::normalized(shortcut) == shortcut,
    decreases shortcut.len(),
{
    if shortcut.len() > 0 {
        let shorter = shortcut.drop_last();
        assert(shortcut.contains(shortcut[shortcut.len() - 1]));
        assert forall|c: char| shorter.contains(c) implies shortcut.contains(c) by {
            let i = choose|i: int| 0 <= i < shorter.len() && shorter[i] == c;
            assert(shortcut[i] == c);
        }
        lemma_normal(shorter);
        assert(shorter.push(shortcut.last()) =~= shortcut);
    }
}

proof fn lemma_chord_push(parts: Seq<Seq<char>>, part: Seq<char>)
    ensures
        hotkey_bindings::chord_parts(parts.push(part)) == (match hotkey_bindings::chord_parts(
            parts,
        ) {
            Err(error) => Err(error),
            Ok((key, modifiers)) => match hotkey_bindings::named_modifier(part) {
                Some(modifier) => Ok((key, modifiers | modifier)),
                None => if key != 0 {
                    Err(BindingError::SeveralKeys)
                } else {
                    match hotkey_bindings::named_key(part) {
                        Some(code) => Ok((code, modifiers)),
                        None => Err(BindingError::UnsupportedKey),
                    }
                },
            },
        }),
{
    assert(parts.push(part).drop_last() =~= parts);
    assert(parts.push(part).last() == part);
}

/// The names of some modifiers, in the order in which they are written.
pub open spec fn modifier_names(control: bool, shift: bool, alt: bool, meta: bool) -> Seq<
    Seq<char>,
> {
    let first = if control {
        Seq::<Seq<char>>::empty().push("Ctrl"@)
    } else {
        Seq::empty()
    };
    let second = if shift {
        first.push("Shift"@)
    } else {
        first
    };
    let third = if alt {
        second.push("Alt"@)
    } else {
        second
    };
    if meta {
        third.push("Super"@)
    } else {
        third
    }
}

/// A shortcut as a user writes it: modifiers and a key, with plus signs
/// between them.
pub open spec fn written_shortcut(
    control: bool,
    shift: bool,
    alt: bool,
    meta: bool,
    name: Seq<char>,
) -> Seq<char> {
    text::joined_fields(modifier_names(control, shift, alt, meta).push(name), '+')
}

/// A number that stands for some modifiers and for no others.
spec fn modifier_sum(control: bool, shift: bool, alt: bool, meta: bool) -> int {
    (if control {
        1int
    } else {
        0
    }) + (if shift {
        2int
    } else {
        0
    }) + (if alt {
        4int
    } else {
        0
    }) + (if meta {
        8int
    } else {
        0
    })
}

proof fn lemma_modifier_bits()
    ensures
        0u8 | 1 == 1,
        0u8 | 2 == 2,
        0u8 | 4 == 4,
        0u8 | 8 == 8,
        1u8 | 2 == 3,
        1u8 | 4 == 5,
        1u8 | 8 == 9,
        2u8 | 4 == 6,
        2u8 | 8 == 10,
        4u8 | 8 == 12,
        3u8 | 4 == 7,
        3u8 | 8 == 11,
        5u8 | 8 == 13,
        6u8 | 8 == 14,
        7u8 | 8 == 15,
{
    assert(0u8 | 1 == 1 && 0u8 | 2 == 2 && 0u8 | 4 == 4 && 0u8 | 8 == 8 && 1u8 | 2 == 3 && 1u8 | 4
        == 5 && 1u8 | 8 == 9 && 2u8 | 4 == 6 && 2u8 | 8 == 10 && 4u8 | 8 == 12 && 3u8 | 4 == 7
        && 3u8 | 8 == 11 && 5u8 | 8 == 13 && 6u8 | 8 == 14 && 7u8 | 8 == 15) by (bit_vector);
}

/// Whether one of two keys is down.
pub open spec fn either_down(pressed: Set<(usize, u16)>, left: u16, right: u16) -> bool {
    (exists|device: usize| pressed.contains((device, left))) || (exists|device: usize|
        pressed.contains((device, right)))
}

proof fn lemma_held(pressed: Set<(usize, u16)>)
    ensures
        hotkey_monitor::held_modifiers(pressed) == modifier_sum(
            either_down(pressed, 29, 97),
            either_down(pressed, 42, 54),
            either_down(pressed, 56, 100),
            either_down(pressed, 125, 126),
        ),
{
    lemma_modifier_bits();
}

proof fn lemma_modifier_names()
    ensures
        hotkey_bindings::named_modifier("Ctrl"@) == Some(1u8),
        hotkey_bindings::named_modifier("Shift"@) == Some(2u8),
        hotkey_bindings::named_modifier("Alt"@) == Some(4u8),
        hotkey_bindings::named_modifier("Super"@) == Some(8u8),
{
    lemma_key_names();
    reveal_strlit("Ctrl");
    reveal_strlit("Shift");
    reveal_strlit("Alt");
    reveal_strlit("Super");
    text::lemma_alike_by_place("Ctrl"@, "ctrl"@);
    text::lemma_alike_length("Shift"@, "ctrl"@);
    text::lemma_alike_length("Shift"@, "control"@);
    text::lemma_alike_by_place("Shift"@, "shift"@);
    text::lemma_alike_length("Alt"@, "ctrl"@);
    text::lemma_alike_length("Alt"@, "control"@);
    text::lemma_alike_length("Alt"@, "shift"@);
    text::lemma_alike_by_place("Alt"@, "alt"@);
    text::lemma_alike_length("Super"@, "ctrl"@);
    text::lemma_alike_length("Super"@, "control"@);
    if text::alike("Super"@, "shift"@) {
        text::lemma_alike_at("Super"@, "shift"@, 1);
    }
    text::lemma_alike_length("Super"@, "alt"@);
    text::lemma_alike_by_place("Super"@, "super"@);
}

/// Other names of a modifier stand for the same one, in any case.
pub proof fn modifier_names_agree(word: Seq<char>)
    ensures
        text::alike(word, "control"@) || text::alike(word, "ctrl"@)
            ==> hotkey_bindings::named_modifier(word) == hotkey_bindings::named_modifier("Ctrl"@),
        text::alike(word, "shift"@) ==> hotkey_bindings::named_modifier(word)
            == hotkey_bindings::named_modifier("Shift"@),
        text::alike(word, "alt"@) ==> hotkey_bindings::named_modifier(word)
            == hotkey_bindings::named_modifier("Alt"@),
        text::alike(word, "super"@) || text::alike(word, "meta"@) || text::alike(word, "win"@)
            ==> hotkey_bindings::named_modifier(word) == hotkey_bindings::named_modifier("Super"@),
        hotkey_bindings::named_modifier(word) is Some ==> text::alike(word, "control"@)
            || text::alike(word, "ctrl"@) || text::alike(word, "shift"@) || text::alike(word, "alt"@)
            || text::alike(word, "super"@) || text::alike(word, "meta"@) || text::alike(
            word,
            "win"@,
        ),
{
    lemma_key_names();
    lemma_modifier_names();
    if text::alike(word, "ctrl"@) {
        text::lemma_alike_at(word, "ctrl"@, 0);
        text::lemma_alike_at(word, "ctrl"@, 1);
    }
    if text::alike(word, "control"@) {
        text::lemma_alike_at(word, "control"@, 0);
        text::lemma_alike_at(word, "control"@, 1);
    }
    if text::alike(word, "shift"@) {
        text::lemma_alike_at(word, "shift"@, 0);
        text::lemma_alike_at(word, "shift"@, 1);
    }
    if text::alike(word, "alt"@) {
        text::lemma_alike_at(word, "alt"@, 0);
        text::lemma_alike_at(word, "alt"@, 1);
    }
    if text::alike(word, "super"@) {
        text::lemma_alike_at(word, "super"@, 0);
        text::lemma_alike_at(word, "super"@, 1);
    }
    if text::alike(word, "meta"@) {
        text::lemma_alike_at(word, "meta"@, 0);
        text::lemma_alike_at(word, "meta"@, 1);
    }
    if text::alike(word, "win"@) {
        text::lemma_alike_at(word, "win"@, 0);
        text::lemma_alike_at(word, "win"@, 1);
    }
}

/// Whether a name can stand for a key in a shortcut.
pub open spec fn is_key_name(name: Seq<char>) -> bool {
    &&& name.len() > 0
    &&& !name.contains('+')
    &&& !name.contains(' ')
    &&& !name.contains('<')
    &&& !name.contains('>')
    &&& hotkey_bindings::named_modifier(name) is None
    &&& hotkey_bindings::named_key(name) is Some
}

proof fn lemma_written(
    control: bool,
    shift: bool,
    alt: bool,
    meta: bool,
    name: Seq<char>,
)
    requires
        is_key_name(name),
    ensures
        !written_shortcut(control, shift, alt, meta, name).contains(' '),
        hotkey_bindings::chord_of(written_shortcut(control, shift, alt, meta, name)) == Ok::<
            (u16, u8),
            BindingError,
        >(
            (
                hotkey_bindings::named_key(name)->0,
                modifier_sum(control, shift, alt, meta) as u8,
            ),
        ),
{
    reveal_strlit("Ctrl");
    reveal_strlit("Shift");
    reveal_strlit("Alt");
    reveal_strlit("Super");
    lemma_modifier_names();
    lemma_modifier_bits();
    let none = Seq::<Seq<char>>::empty();
    let first = if control {
        none.push("Ctrl"@)
    } else {
        none
    };
    let second = if shift {
        first.push("Shift"@)
    } else {
        first
    };
    let third = if alt {
        second.push("Alt"@)
    } else {
        second
    };
    let names = modifier_names(control, shift, alt, meta);
    lemma_chord_push(none, "Ctrl"@);
    lemma_chord_push(first, "Shift"@);
    lemma_chord_push(second, "Alt"@);
    lemma_chord_push(third, "Super"@);
    lemma_chord_push(names, name);
    let parts = names.push(name);
    let whole = text::joined_fields(parts, '+');
    assert forall|i: int| 0 <= i < parts.len() implies (#[trigger] parts[i]).len() > 0
        && !parts[i].contains('+') && !parts[i].contains(' ') && !parts[i].contains('<')
        && !parts[i].contains('>') by {
        assert(parts[i] == name || parts[i] == "Ctrl"@ || parts[i] == "Shift"@ || parts[i]
            == "Alt"@ || parts[i] == "Super"@);
    }
    text::joined_fields_round_trip(parts, '+');
    text::lemma_joined_contains(parts, '+', ' ');
    text::lemma_joined_contains(parts, '+', '<');
    text::lemma_joined_contains(parts, '+', '>');
    lemma_normal(whole);
    lemma_nonempty_fields(whole, '+');
    lemma_key_is_no_modifier(name);
}

/// No shortcut's key is one of the keys that are held beside it.
proof fn lemma_key_is_no_modifier(name: Seq<char>)
    ensures
        hotkey_bindings::named_key(name) matches Some(code) ==> {
            &&& code != 0
            &&& code != 29 && code != 97
            &&& code != 42 && code != 54
            &&& code != 56 && code != 100
            &&& code != 125 && code != 126
        },
{
}

proof fn lemma_bound_action(bindings: Seq<KeyChord>, at: int)
    requires
        0 <= at < bindings.len(),
        hotkey_bindings::all_distinct(bindings),
    ensures
        hotkey_monitor::bound_action(bindings, bindings[at].key, bindings[at].modifiers) == Some(
            bindings[at].action,
        ),
    decreases bindings.len(),
{
    if at > 0 {
        assert(!hotkey_bindings::same_keys(bindings[0], bindings[at]));
        let rest = bindings.skip(1);
        assert forall|i: int, j: int| 0 <= i < j < rest.len() implies !hotkey_bindings::same_keys(
            #[trigger] rest[i],
            #[trigger] rest[j],
        ) by {
            assert(rest[i] == bindings[i + 1] && rest[j] == bindings[j + 1]);
        }
        assert(rest[at - 1] == bindings[at]);
        lemma_bound_action(rest, at - 1);
    }
}

proof fn lemma_other_keys_stay(pressed: Set<(usize, u16)>, device: usize, code: u16)
    requires
        code != 29 && code != 97 && code != 42 && code != 54 && code != 56 && code != 100 && code
            != 125 && code != 126,
    ensures
        hotkey_monitor::held_modifiers(pressed.insert((device, code)))
            == hotkey_monitor::held_modifiers(pressed),
{
    let after = pressed.insert((device, code));
    assert forall|other: u16| other != code implies #[trigger] hotkey_monitor::is_down(after, other)
        == hotkey_monitor::is_down(pressed, other) by {
        if hotkey_monitor::is_down(after, other) {
            let d = choose|d: usize| after.contains((d, other));
            assert(pressed.contains((d, other)));
        }
        if hotkey_monitor::is_down(pressed, other) {
            let d = choose|d: usize| pressed.contains((d, other));
            assert(after.contains((d, other)));
        }
    }
}

/// The line that binds a shortcut to a save.
pub open spec fn binding_line(shortcut: Seq<char>, seconds: u16) -> Seq<char> {
    "BIND "@ + shortcut + " "@ + text::decimal(seconds as nat)
}

proof fn lemma_line_is_read(
    control: bool,
    shift: bool,
    alt: bool,
    meta: bool,
    name: Seq<char>,
    seconds: u16,
)
    requires
        is_key_name(name),
        seconds == 15 || seconds == 30 || seconds == 60 || seconds == 120 || seconds == 180
            || seconds == 300 || seconds == 600 || seconds == 900,
    ensures
        hotkey_bindings::stated_binding(
            binding_line(written_shortcut(control, shift, alt, meta, name), seconds),
        ) == Ok::<KeyChord, BindingError>(
            KeyChord {
                key: hotkey_bindings::named_key(name)->0,
                modifiers: modifier_sum(control, shift, alt, meta) as u8,
                action: HotkeyAction::Save(seconds),
            },
        ),
{
    reveal_strlit("BIND ");
    reveal_strlit("TOGGLE ");
    reveal_strlit(" ");
    let shortcut = written_shortcut(control, shift, alt, meta, name);
    let line = binding_line(shortcut, seconds);
    lemma_written(control, shift, alt, meta, name);
    let number = text::decimal(seconds as nat);
    text::decimal_round_trip(seconds as nat);
    assert(line.take(5) =~= "BIND "@);
    assert(line.take(7)[0] == 'B');
    assert("TOGGLE "@[0] == 'T');
    let rest = line.skip(5);
    assert(rest =~= shortcut + seq![' '] + number);
    assert forall|i: int| shortcut.len() + 1 <= i < rest.len() implies rest[i] != ' ' by {
        assert(rest[i] == number[i - shortcut.len() - 1]);
        assert(text::is_digit(number[i - shortcut.len() - 1]));
    }
    text::lemma_after_last(rest, ' ', shortcut.len() as int + 1);
    assert(rest.skip(shortcut.len() as int + 1) =~= number);
    assert(rest.take(rest.len() - number.len() - 1) =~= shortcut);
    assert(text::after_prefix(line, "TOGGLE "@) is None);
    assert(text::after_prefix(line, "BIND "@) == Some(rest));
    assert(text::parsed_decimal(number, u16::MAX as nat) == Some(seconds as nat));
}

proof fn lemma_one_binding(chord: KeyChord, key: u16, modifiers: u8)
    ensures
        hotkey_monitor::bound_action(seq![chord], key, modifiers) == (if chord.key == key
            && chord.modifiers == modifiers {
            Some(chord.action)
        } else {
            None
        }),
{
    assert(seq![chord].skip(1) =~= Seq::<KeyChord>::empty());
    assert(hotkey_monitor::bound_action(seq![chord].skip(1), key, modifiers) is None);
}

/// A shortcut fires on the keys that it names. The line that binds it is read,
/// and pressing its key saves exactly when the left or the right key of each
/// modifier that is written is down and no key of another modifier is.
pub proof fn shortcuts_fire_on_their_keys(
    control: bool,
    shift: bool,
    alt: bool,
    meta: bool,
    name: Seq<char>,
    seconds: u16,
    pressed: Set<(usize, u16)>,
    device: usize,
)
    requires
        is_key_name(name),
        seconds == 15 || seconds == 30 || seconds == 60 || seconds == 120 || seconds == 180
            || seconds == 300 || seconds == 600 || seconds == 900,
    ensures
        ({
            let line = binding_line(
                written_shortcut(control, shift, alt, meta, name),
                seconds,
            );
            let code = hotkey_bindings::named_key(name)->0;
            let event = KeyEvent { device, code, value: 1 };
            hotkey_bindings::stated_binding(line) matches Ok(chord) && {
                let exact = {
                    &&& control == either_down(pressed, 29, 97)
                    &&& shift == either_down(pressed, 42, 54)
                    &&& alt == either_down(pressed, 56, 100)
                    &&& meta == either_down(pressed, 125, 126)
                };
                let fresh = !(exists|other: usize| pressed.contains((other, code)));
                hotkey_monitor::key_decision(pressed, event, seq![chord], false).action == (
                if exact && fresh {
                    Some(HotkeyAction::Save(seconds))
                } else {
                    None
                })
            }
        }),
{
    lemma_line_is_read(control, shift, alt, meta, name, seconds);
    lemma_key_is_no_modifier(name);
    let code = hotkey_bindings::named_key(name)->0;
    let chord = KeyChord {
        key: code,
        modifiers: modifier_sum(control, shift, alt, meta) as u8,
        action: HotkeyAction::Save(seconds),
    };
    lemma_held(pressed);
    lemma_other_keys_stay(pressed, device, code);
    lemma_one_binding(chord, code, hotkey_monitor::held_modifiers(pressed.insert((device, code))));
}

/// Among bindings for different keys, the one whose keys are down acts.
pub proof fn the_pressed_binding_acts(
    bindings: Seq<KeyChord>,
    at: int,
    pressed: Set<(usize, u16)>,
    device: usize,
)
    requires
        0 <= at < bindings.len(),
        hotkey_bindings::all_distinct(bindings),
        !(exists|other: usize| pressed.contains((other, bindings[at].key))),
        hotkey_monitor::held_modifiers(pressed.insert((device, bindings[at].key)))
            == bindings[at].modifiers,
    ensures
        hotkey_monitor::key_decision(
            pressed,
            KeyEvent { device, code: bindings[at].key, value: 1 },
            bindings,
            false,
        ).action == Some(bindings[at].action),
{
    lemma_bound_action(bindings, at);
}

} // verus!
