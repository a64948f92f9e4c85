//! Native games that desktop entries advertise.
use crate::games;
use crate::games::{
    DiscoveredGame, GameDiscoveryError, GameDiscoverySource, GameLaunchConfig, GameMatchRule,
    GameView, LaunchView, RuleView, SourceView,
};
use crate::path_map;
use crate::path_map::PathMap;
use crate::paths;
use crate::steam_discovery;
use crate::steam_launch_options;
use crate::text;
use vstd::prelude::*;
use vstd::string::*;

verus! {

broadcast use vstd::string::group_string_axioms;

pub const MAX_DESKTOP_FILE_BYTES: u64 = 262_144;

pub const MAX_DESKTOP_FILES: usize = 8192;

pub const MAX_DISCOVERED_GAMES: usize = 512;

pub const MAX_EXEC_BYTES: usize = 32_768;

pub const MAX_EXEC_ARGUMENTS: usize = 64;

pub const MAX_PATH_BYTES: usize = 4096;

pub const MAX_POSTER_BYTES: u64 = 20_971_520;

pub const COLON: u8 = 58;

/// The fields of a desktop entry that discovery reads.
#[derive(Debug)]
pub struct DesktopEntry {
    pub entry_type: Option<String>,
    pub name: Option<String>,
    pub command: Option<String>,
    pub try_exec: Option<String>,
    pub working_directory: Option<String>,
    pub icon: Option<String>,
    pub categories: Vec<String>,
    pub hidden: bool,
    pub no_display: bool,
    pub terminal: bool,
}

/// What a [`DesktopEntry`] holds.
#[verifier::ext_equal]
pub ghost struct EntryView {
    pub entry_type: Option<Seq<char>>,
    pub name: Option<Seq<char>>,
    pub command: Option<Seq<char>>,
    pub try_exec: Option<Seq<char>>,
    pub working_directory: Option<Seq<char>>,
    pub icon: Option<Seq<char>>,
    pub categories: Seq<Seq<char>>,
    pub hidden: bool,
    pub no_display: bool,
    pub terminal: bool,
}

/// The characters of an optional text.
pub open spec fn optional_text(text: Option<String>) -> Option<Seq<char>> {
    match text {
        Some(text) => Some(text@),
        None => None,
    }
}

impl View for DesktopEntry {
    type V = EntryView;

    open spec fn view(&self) -> EntryView {
        EntryView {
            entry_type: optional_text(self.entry_type),
            name: optional_text(self.name),
            command: optional_text(self.command),
            try_exec: optional_text(self.try_exec),
            working_directory: optional_text(self.working_directory),
            icon: optional_text(self.icon),
            categories: steam_discovery::texts(self.categories@),
            hidden: self.hidden,
            no_display: self.no_display,
            terminal: self.terminal,
        }
    }
}

/// An entry without fields.
pub open spec fn empty_entry() -> EntryView {
    EntryView {
        entry_type: None,
        name: None,
        command: None,
        try_exec: None,
        working_directory: None,
        icon: None,
        categories: Seq::empty(),
        hidden: false,
        no_display: false,
        terminal: false,
    }
}

/// A field that takes one value only, of a bounded size and without NUL.
pub open spec fn set_field(field: Option<Seq<char>>, value: Seq<char>) -> Option<
    Option<Seq<char>>,
> {
    if field is Some || vstd::utf8::encode_utf8(value).len() > MAX_EXEC_BYTES || value.contains(
        '\0',
    ) {
        None
    } else {
        Some(Some(value))
    }
}

/// A boolean in a desktop entry.
pub open spec fn switch_value(value: Seq<char>) -> Option<bool> {
    if value == "true"@ {
        Some(true)
    } else if value == "false"@ {
        Some(false)
    } else {
        None
    }
}

/// An entry after one assignment, if the assignment is acceptable.
pub open spec fn assigned(entry: EntryView, key: Seq<char>, value: Seq<char>) -> Option<EntryView> {
    if key == "Type"@ {
        match set_field(entry.entry_type, value) {
            Some(field) => Some(EntryView { entry_type: field, ..entry }),
            None => None,
        }
    } else if key == "Name"@ {
        match set_field(entry.name, value) {
            Some(field) => Some(EntryView { name: field, ..entry }),
            None => None,
        }
    } else if key == "Exec"@ {
        match set_field(entry.command, value) {
            Some(field) => Some(EntryView { command: field, ..entry }),
            None => None,
        }
    } else if key == "TryExec"@ {
        match set_field(entry.try_exec, value) {
            Some(field) => Some(EntryView { try_exec: field, ..entry }),
            None => None,
        }
    } else if key == "Path"@ {
        match set_field(entry.working_directory, value) {
            Some(field) => Some(EntryView { working_directory: field, ..entry }),
            None => None,
        }
    } else if key == "Icon"@ {
        match set_field(entry.icon, value) {
            Some(field) => Some(EntryView { icon: field, ..entry }),
            None => None,
        }
    } else if key == "Categories"@ {
        if entry.categories.len() > 0 {
            None
        } else {
            Some(EntryView { categories: text::nonempty_parts(value, ';'), ..entry })
        }
    } else if key == "Hidden"@ {
        match switch_value(value) {
            Some(hidden) => Some(EntryView { hidden, ..entry }),
            None => None,
        }
    } else if key == "NoDisplay"@ {
        match switch_value(value) {
            Some(no_display) => Some(EntryView { no_display, ..entry }),
            None => None,
        }
    } else if key == "Terminal"@ {
        match switch_value(value) {
            Some(terminal) => Some(EntryView { terminal, ..entry }),
            None => None,
        }
    } else {
        Some(entry)
    }
}

/// How far reading an entry has come.
#[verifier::ext_equal]
pub ghost struct EntryState {
    pub entry: EntryView,
    /// Whether the current group is the entry's.
    pub inside: bool,
    /// Whether the entry's group was seen.
    pub seen: bool,
}

/// What one line does.
pub open spec fn after_line(state: EntryState, raw: Seq<char>) -> Option<EntryState> {
    let line = text::trimmed(raw);
    if line.len() == 0 || line[0] == '#' {
        Some(state)
    } else if line[0] == '[' {
        if line == "[Desktop Entry]"@ {
            if state.seen {
                None
            } else {
                Some(EntryState { inside: true, seen: true, ..state })
            }
        } else {
            Some(EntryState { inside: false, ..state })
        }
    } else if !state.inside {
        Some(state)
    } else {
        match text::split_at_first(line, '=') {
            None => None,
            Some((key, value)) => match assigned(state.entry, key, value) {
                None => None,
                Some(entry) => Some(EntryState { entry, ..state }),
            },
        }
    }
}

/// What the lines do one after another.
pub open spec fn after_lines(state: EntryState, lines: Seq<Seq<char>>) -> Option<EntryState>
    decreases lines.len(),
{
    if lines.len() == 0 {
        Some(state)
    } else {
        match after_line(state, lines[0]) {
            None => None,
            Some(next) => after_lines(next, lines.skip(1)),
        }
    }
}

/// The entry that a file holds.
pub open spec fn parsed_entry(contents: Seq<char>) -> Option<EntryView> {
    match after_lines(
        EntryState { entry: empty_entry(), inside: false, seen: false },
        text::lines_of(contents),
    ) {
        None => None,
        Some(state) => if state.seen {
            Some(state.entry)
        } else {
            None
        },
    }
}

fn holds_nul(chars: &[char]) -> (result: bool)
    ensures
        result == chars@.contains('\0'),
{
    let position: usize = text::find_char(chars, '\0');
    proof {
        text::lemma_first_index(chars@, '\0');
        if position < chars@.len() {
            assert(chars@[position as int] == '\0');
        }
    }
    position < chars.len()
}

/// Sets a field once. Says whether that was possible.
fn set_once(destination: &mut Option<String>, value: &[char]) -> (result: bool)
    ensures
        match set_field(optional_text(*old(destination)), value@) {
            Some(field) => result && optional_text(*final(destination)) == field,
            None => !result && *final(destination) == *old(destination),
        },
{
    if destination.is_some() || holds_nul(value) {
        return false;
    }
    let owned = text::string_of(value);
    if owned.as_str().as_bytes().len() > MAX_EXEC_BYTES {
        return false;
    }
    *destination = Some(owned);
    true
}

fn parse_bool(value: &[char]) -> (result: Option<bool>)
    ensures
        result == switch_value(value@),
{
    if text::spells(value, "true") {
        Some(true)
    } else if text::spells(value, "false") {
        Some(false)
    } else {
        None
    }
}

fn owned_texts(parts: &[Vec<char>]) -> (result: Vec<String>)
    ensures
        steam_discovery::texts(result@) == text::views(parts@),
{
    let ghost all = text::views(parts@);
    let mut owned: Vec<String> = Vec::new();
    let mut index: usize = 0;
    assert(steam_discovery::texts(owned@) =~= all.take(0));
    while index < parts.len()
        invariant
            index <= parts@.len(),
            all == text::views(parts@),
            steam_discovery::texts(owned@) == all.take(index as int),
        decreases parts@.len() - index,
    {
        let ghost before = steam_discovery::texts(owned@);
        let part = text::string_of(parts[index].as_slice());
        owned.push(part);
        assert(steam_discovery::texts(owned@) =~= before.push(part@));
        assert(all.take(index + 1) =~= before.push(all[index as int]));
        index = index + 1;
    }
    assert(all.take(index as int) =~= all);
    owned
}

impl DesktopEntry {
    fn empty() -> (result: Self)
        ensures
            result@ == empty_entry(),
    {
        let categories: Vec<String> = Vec::new();
        assert(steam_discovery::texts(categories@) =~= Seq::<Seq<char>>::empty());
        DesktopEntry {
            entry_type: None,
            name: None,
            command: None,
            try_exec: None,
            working_directory: None,
            icon: None,
            categories,
            hidden: false,
            no_display: false,
            terminal: false,
        }
    }

    /// Makes one assignment. Says whether it was acceptable.
    fn assign(&mut self, key: &[char], value: &[char]) -> (result: bool)
        ensures
            match assigned(old(self)@, key@, value@) {
                Some(entry) => result && final(self)@ == entry,
                None => !result,
            },
    {
        if text::spells(key, "Type") {
            set_once(&mut self.entry_type, value)
        } else if text::spells(key, "Name") {
            set_once(&mut self.name, value)
        } else if text::spells(key, "Exec") {
            set_once(&mut self.command, value)
        } else if text::spells(key, "TryExec") {
            set_once(&mut self.try_exec, value)
        } else if text::spells(key, "Path") {
            set_once(&mut self.working_directory, value)
        } else if text::spells(key, "Icon") {
            set_once(&mut self.icon, value)
        } else if text::spells(key, "Categories") {
            if self.categories.len() > 0 {
                return false;
            }
            let parts = text::split_nonempty_chars(value, ';');
            self.categories = owned_texts(parts.as_slice());
            true
        } else if text::spells(key, "Hidden") {
            match parse_bool(value) {
                Some(hidden) => {
                    self.hidden = hidden;
                    true
                },
                None => false,
            }
        } else if text::spells(key, "NoDisplay") {
            match parse_bool(value) {
                Some(no_display) => {
                    self.no_display = no_display;
                    true
                },
                None => false,
            }
        } else if text::spells(key, "Terminal") {
            match parse_bool(value) {
                Some(terminal) => {
                    self.terminal = terminal;
                    true
                },
                None => false,
            }
        } else {
            true
        }
    }

    /// Reads the entry of a file. A group that occurs twice, a line of the
    /// group without an assignment, and a field that occurs twice or cannot
    /// be read make the whole file unusable.
    pub fn parse(contents: &str) -> (result: Option<Self>)
        ensures
            match result {
                Some(entry) => parsed_entry(contents@) == Some(entry@),
                None => parsed_entry(contents@) is None,
            },
    {
        let chars = text::chars_of(contents);
        let lines = text::split_lines(chars.as_slice());
        let ghost all = text::lines_of(contents@);
        let mut entry = DesktopEntry::empty();
        let mut inside = false;
        let mut seen = false;
        let ghost whole = after_lines(
            EntryState { entry: empty_entry(), inside: false, seen: false },
            all,
        );
        let mut index: usize = 0;
        assert(all.skip(0) =~= all);
        while index < lines.len()
            invariant
                index <= lines@.len(),
                all == text::views(lines@),
                all == text::lines_of(contents@),
                whole == after_lines(
                    EntryState { entry: empty_entry(), inside: false, seen: false },
                    all,
                ),
                whole == after_lines(
                    EntryState { entry: entry@, inside, seen },
                    all.skip(index as int),
                ),
            decreases lines@.len() - index,
        {
            assert(all.skip(index as int)[0] == lines@[index as int]@);
            assert(all.skip(index as int).skip(1) =~= all.skip(index + 1));
            let line = text::trim(lines[index].as_slice());
            index = index + 1;
            if line.len() == 0 || line[0] == '#' {
                continue ;
            }
            if line[0] == '[' {
                if text::spells(line.as_slice(), "[Desktop Entry]") {
                    if seen {
                        return None;
                    }
                    seen = true;
                    inside = true;
                } else {
                    inside = false;
                }
                continue ;
            }
            if !inside {
                continue ;
            }
            match text::split_once(line.as_slice(), '=') {
                None => {
                    return None;
                },
                Some((key, value)) => {
                    if !entry.assign(key.as_slice(), value.as_slice()) {
                        return None;
                    }
                },
            }
        }
        if seen {
            Some(entry)
        } else {
            None
        }
    }
}

/// How far splitting a command has come.
#[verifier::ext_equal]
pub ghost struct TokenState {
    pub tokens: Seq<Seq<char>>,
    pub current: Seq<char>,
    pub quoted: bool,
    pub escaped: bool,
    pub started: bool,
}

/// What one character of a command does.
pub open spec fn after_char(state: TokenState, character: char) -> Option<TokenState> {
    if state.escaped {
        Some(
            TokenState {
                current: state.current.push(character),
                escaped: false,
                started: true,
                ..state
            },
        )
    } else if character == '\\' {
        Some(TokenState { escaped: true, ..state })
    } else if character == '"' {
        Some(TokenState { quoted: !state.quoted, started: true, ..state })
    } else if text::is_space(character) && !state.quoted {
        if !state.started {
            Some(state)
        } else if state.tokens.len() + 1 > MAX_EXEC_ARGUMENTS + 1 {
            None
        } else {
            Some(
                TokenState {
                    tokens: state.tokens.push(state.current),
                    current: Seq::empty(),
                    started: false,
                    ..state
                },
            )
        }
    } else if text::is_control_code(character) {
        None
    } else {
        Some(TokenState { current: state.current.push(character), started: true, ..state })
    }
}

/// What characters do one after another.
pub open spec fn after_chars(state: TokenState, characters: Seq<char>) -> Option<TokenState>
    decreases characters.len(),
{
    if characters.len() == 0 {
        Some(state)
    } else {
        match after_char(state, characters[0]) {
            None => None,
            Some(next) => after_chars(next, characters.skip(1)),
        }
    }
}

/// The state before the first character.
pub open spec fn first_state() -> TokenState {
    TokenState {
        tokens: Seq::empty(),
        current: Seq::empty(),
        quoted: false,
        escaped: false,
        started: false,
    }
}

/// The words of a command. Quotes group words, a backslash takes the next
/// character as it is, and no shell syntax means anything.
pub open spec fn tokenized(command: Seq<char>) -> Option<Seq<Seq<char>>> {
    if command.len() == 0 || vstd::utf8::encode_utf8(command).len() > MAX_EXEC_BYTES {
        None
    } else {
        match after_chars(first_state(), command) {
            None => None,
            Some(state) => if state.escaped || state.quoted {
                None
            } else {
                let tokens = if state.started {
                    state.tokens.push(state.current)
                } else {
                    state.tokens
                };
                if 0 < tokens.len() <= MAX_EXEC_ARGUMENTS + 1 {
                    Some(tokens)
                } else {
                    None
                }
            },
        }
    }
}

/// Splits a command into words.
pub fn tokenize_exec(command: &str) -> (result: Option<Vec<Vec<char>>>)
    ensures
        match result {
            Some(tokens) => tokenized(command@) == Some(text::views(tokens@)),
            None => tokenized(command@) is None,
        },
{
    let chars = text::chars_of(command);
    if chars.len() == 0 || command.as_bytes().len() > MAX_EXEC_BYTES {
        return None;
    }
    let ghost whole = after_chars(first_state(), command@);
    let mut tokens: Vec<Vec<char>> = Vec::new();
    let mut current: Vec<char> = Vec::new();
    let mut quoted = false;
    let mut escaped = false;
    let mut started = false;
    let mut index: usize = 0;
    assert(command@.skip(0) =~= command@);
    assert(TokenState { tokens: text::views(tokens@), current: current@, quoted, escaped, started }
        =~= first_state());
    while index < chars.len()
        invariant
            index <= chars@.len(),
            chars@ == command@,
            chars@.len() > 0,
            vstd::utf8::encode_utf8(command@).len() <= MAX_EXEC_BYTES,
            tokens@.len() <= MAX_EXEC_ARGUMENTS + 1,
            whole == after_chars(first_state(), command@),
            whole == after_chars(
                TokenState {
                    tokens: text::views(tokens@),
                    current: current@,
                    quoted,
                    escaped,
                    started,
                },
                command@.skip(index as int),
            ),
        decreases chars@.len() - index,
    {
        assert(command@.skip(index as int)[0] == chars@[index as int]);
        assert(command@.skip(index as int).skip(1) =~= command@.skip(index + 1));
        let character: char = chars[index];
        index = index + 1;
        if escaped {
            current.push(character);
            escaped = false;
            started = true;
        } else if character == '\\' {
            escaped = true;
        } else if character == '"' {
            quoted = !quoted;
            started = true;
        } else if text::is_whitespace(character) && !quoted {
            if started {
                if tokens.len() + 1 > MAX_EXEC_ARGUMENTS + 1 {
                    return None;
                }
                let ghost before = text::views(tokens@);
                let ghost word = current@;
                tokens.push(current);
                assert(text::views(tokens@) =~= before.push(word));
                current = Vec::new();
                assert(current@ =~= Seq::<char>::empty());
                started = false;
            }
        } else if text::is_control(character) {
            return None;
        } else {
            current.push(character);
            started = true;
        }
    }
    if escaped || quoted {
        return None;
    }
    if started {
        let ghost before = text::views(tokens@);
        let ghost word = current@;
        tokens.push(current);
        assert(text::views(tokens@) =~= before.push(word));
    }
    if tokens.len() == 0 || tokens.len() > MAX_EXEC_ARGUMENTS + 1 {
        return None;
    }
    Some(tokens)
}

/// A word with doubled percent signs undone. Any other use of the sign would
/// substitute something and is refused.
pub open spec fn expanded(token: Seq<char>) -> Option<Seq<char>>
    decreases token.len(),
{
    if token.len() == 0 {
        Some(Seq::empty())
    } else if token[0] != '%' {
        match expanded(token.skip(1)) {
            Some(rest) => Some(seq![token[0]] + rest),
            None => None,
        }
    } else if token.len() >= 2 && token[1] == '%' {
        match expanded(token.skip(2)) {
            Some(rest) => Some(seq!['%'] + rest),
            None => None,
        }
    } else {
        None
    }
}

/// Whether a word stands for files that are opened with a program.
pub open spec fn is_file_code(token: Seq<char>) -> bool {
    token == "%f"@ || token == "%F"@ || token == "%u"@ || token == "%U"@
}

/// The words of a command without codes for files, each expanded.
pub open spec fn normalized(tokens: Seq<Seq<char>>) -> Option<Seq<Seq<char>>>
    decreases tokens.len(),
{
    if tokens.len() == 0 {
        Some(Seq::empty())
    } else {
        match normalized(tokens.drop_last()) {
            None => None,
            Some(before) => if is_file_code(tokens.last()) {
                Some(before)
            } else {
                match expanded(tokens.last()) {
                    None => None,
                    Some(word) => Some(before.push(word)),
                }
            },
        }
    }
}

fn expand_token(token: &[char]) -> (result: Option<Vec<char>>)
    ensures
        match result {
            Some(word) => expanded(token@) == Some(word@),
            None => expanded(token@) is None,
        },
{
    let mut output: Vec<char> = Vec::new();
    let mut index: usize = 0;
    assert(token@.skip(0) =~= token@);
    proof {
        if let Some(rest) = expanded(token@) {
            assert(output@ + rest =~= rest);
        }
    }
    while index < token.len()
        invariant
            index <= token@.len(),
            match expanded(token@.skip(index as int)) {
                Some(rest) => expanded(token@) == Some(output@ + rest),
                None => expanded(token@) is None,
            },
        decreases token@.len() - index,
    {
        let ghost rest = token@.skip(index as int);
        assert(rest[0] == token@[index as int]);
        let ghost before = output@;
        if token[index] != '%' {
            assert(rest.skip(1) =~= token@.skip(index + 1));
            output.push(token[index]);
            proof {
                if let Some(tail) = expanded(rest.skip(1)) {
                    assert(output@ + tail =~= before + (seq![rest[0]] + tail));
                }
            }
            index = index + 1;
        } else {
            if index + 1 >= token.len() {
                return None;
            }
            assert(rest[1] == token@[index + 1]);
            if token[index + 1] != '%' {
                return None;
            }
            assert(rest.skip(2) =~= token@.skip(index + 2));
            output.push('%');
            proof {
                if let Some(tail) = expanded(rest.skip(2)) {
                    assert(output@ + tail =~= before + (seq!['%'] + tail));
                }
            }
            index = index + 2;
        }
    }
    assert(token@.skip(index as int) =~= Seq::<char>::empty());
    assert(output@ + Seq::<char>::empty() =~= output@);
    Some(output)
}

proof fn lemma_normalized_prefix(tokens: Seq<Seq<char>>, count: int)
    requires
        0 <= count <= tokens.len(),
        normalized(tokens.take(count)) is None,
    ensures
        normalized(tokens) is None,
    decreases tokens.len() - count,
{
    if count < tokens.len() {
        assert(tokens.take(count + 1).drop_last() =~= tokens.take(count));
        lemma_normalized_prefix(tokens, count + 1);
    } else {
        assert(tokens.take(count) =~= tokens);
    }
}

/// Removes codes for files from a command and expands what is left.
pub fn normalize_exec_tokens(tokens: &[Vec<char>]) -> (result: Option<Vec<Vec<char>>>)
    ensures
        match result {
            Some(words) => normalized(text::views(tokens@)) == Some(text::views(words@)),
            None => normalized(text::views(tokens@)) is None,
        },
{
    let ghost all = text::views(tokens@);
    let mut words: Vec<Vec<char>> = Vec::new();
    let mut index: usize = 0;
    assert(all.take(0) =~= Seq::<Seq<char>>::empty());
    assert(text::views(words@) =~= Seq::<Seq<char>>::empty());
    while index < tokens.len()
        invariant
            index <= tokens@.len(),
            all == text::views(tokens@),
            normalized(all.take(index as int)) == Some(text::views(words@)),
        decreases tokens@.len() - index,
    {
        assert(all.take(index + 1).drop_last() =~= all.take(index as int));
        assert(all.take(index + 1).last() == tokens@[index as int]@);
        let token = tokens[index].as_slice();
        if !(text::spells(token, "%f") || text::spells(token, "%F") || text::spells(token, "%u")
            || text::spells(token, "%U")) {
            match expand_token(token) {
                None => {
                    proof {
                        lemma_normalized_prefix(all, index + 1);
                    }
                    return None;
                },
                Some(word) => {
                    let ghost before = text::views(words@);
                    let ghost spelled = word@;
                    words.push(word);
                    assert(text::views(words@) =~= before.push(spelled));
                },
            }
        }
        index = index + 1;
    }
    assert(all.take(index as int) =~= all);
    Some(words)
}

/// What a desktop entry of a game asks for, before its paths are resolved.
#[derive(Debug)]
pub struct DesktopLaunch {
    pub name: String,
    pub program: String,
    pub arguments: Vec<String>,
    pub try_exec: Option<String>,
    pub working_directory: Option<String>,
    pub icon: Option<String>,
}

/// What a [`DesktopLaunch`] holds.
#[verifier::ext_equal]
pub ghost struct DesktopLaunchView {
    pub name: Seq<char>,
    pub program: Seq<char>,
    pub arguments: Seq<Seq<char>>,
    pub try_exec: Option<Seq<char>>,
    pub working_directory: Option<Seq<char>>,
    pub icon: Option<Seq<char>>,
}

impl View for DesktopLaunch {
    type V = DesktopLaunchView;

    open spec fn view(&self) -> DesktopLaunchView {
        DesktopLaunchView {
            name: self.name@,
            program: self.program@,
            arguments: steam_discovery::texts(self.arguments@),
            try_exec: optional_text(self.try_exec),
            working_directory: optional_text(self.working_directory),
            icon: optional_text(self.icon),
        }
    }
}

/// Whether an entry is a game that is shown and runs without a terminal.
pub open spec fn advertises_game(entry: EntryView) -> bool {
    &&& entry.entry_type == Some("Application"@)
    &&& !entry.hidden
    &&& !entry.no_display
    &&& !entry.terminal
    &&& entry.categories.contains("Game"@)
}

/// The words of an entry's command.
pub open spec fn command_words(command: Seq<char>) -> Option<Seq<Seq<char>>> {
    match tokenized(command) {
        None => None,
        Some(tokens) => normalized(tokens),
    }
}

/// What an entry asks for, if it is a game.
pub open spec fn entry_launch(entry: EntryView) -> Option<DesktopLaunchView> {
    match (entry.name, entry.command) {
        (Some(name), Some(command)) => {
            let shown = text::trimmed(name);
            let words = command_words(command);
            if advertises_game(entry) && games::is_display_name(shown) && words is Some
                && words->0.len() > 0 {
                Some(
                    DesktopLaunchView {
                        name: shown,
                        program: words->0[0],
                        arguments: words->0.skip(1),
                        try_exec: entry.try_exec,
                        working_directory: entry.working_directory,
                        icon: entry.icon,
                    },
                )
            } else {
                None
            }
        },
        _ => None,
    }
}

fn lists_category(categories: &[String], category: &str) -> (result: bool)
    ensures
        result == steam_discovery::texts(categories@).contains(category@),
{
    let ghost all = steam_discovery::texts(categories@);
    let mut index: usize = 0;
    while index < categories.len()
        invariant
            index <= categories@.len(),
            all == steam_discovery::texts(categories@),
            forall|i: int| 0 <= i < index ==> #[trigger] all[i] != category@,
        decreases categories@.len() - index,
    {
        assert(all[index as int] == categories@[index as int]@);
        if text::same_text(categories[index].as_str(), category) {
            return true;
        }
        index = index + 1;
    }
    false
}

/// Decides what an entry asks for.
pub fn read_launch(entry: DesktopEntry) -> (result: Option<DesktopLaunch>)
    ensures
        match result {
            Some(launch) => entry_launch(entry@) == Some(launch@),
            None => entry_launch(entry@) is None,
        },
{
    let is_application = match &entry.entry_type {
        Some(entry_type) => text::same_text(entry_type.as_str(), "Application"),
        None => false,
    };
    if !is_application || entry.hidden || entry.no_display || entry.terminal || !lists_category(
        entry.categories.as_slice(),
        "Game",
    ) {
        return None;
    }
    let name = match &entry.name {
        None => {
            return None;
        },
        Some(name) => match games::display_name(name.as_str()) {
            None => {
                return None;
            },
            Some(name) => name,
        },
    };
    let tokens = match &entry.command {
        None => {
            return None;
        },
        Some(command) => match tokenize_exec(command.as_str()) {
            None => {
                return None;
            },
            Some(tokens) => tokens,
        },
    };
    let words = match normalize_exec_tokens(tokens.as_slice()) {
        None => {
            return None;
        },
        Some(words) => words,
    };
    if words.len() == 0 {
        return None;
    }
    let ghost all = text::views(words@);
    assert(all[0] == words@[0]@);
    let program = text::string_of(words[0].as_slice());
    let rest = vstd::slice::slice_subrange(words.as_slice(), 1, words.len());
    assert(text::views(rest@) =~= all.skip(1));
    let arguments = owned_texts(rest);
    Some(
        DesktopLaunch {
            name,
            program,
            arguments,
            try_exec: entry.try_exec,
            working_directory: entry.working_directory,
            icon: entry.icon,
        },
    )
}

/// Whether a file name is that of a launcher which many games share.
pub open spec fn is_launcher_name(name: Seq<char>) -> bool {
    exists|i: int| 0 <= i < launchers().len() && text::alike(name, (#[trigger] launchers()[i])@)
}

/// Launchers, shells and runtimes that are no game's identity.
pub open spec fn launchers() -> Seq<&'static str> {
    seq![
        "bash",
        "bin_steam.sh",
        "dash",
        "env",
        "flatpak",
        "fish",
        "gamescope",
        "heroic",
        "lutris",
        "perl",
        "proton",
        "python",
        "python3",
        "redunar-daemon",
        "redunar-steam-launch",
        "redunar-tauri",
        "sh",
        "steam",
        "steam.sh",
        "steam-runtime-steam-remote",
        "wine",
        "wine64",
        "zsh",
    ]
}

fn shared_launchers() -> (result: Vec<&'static str>)
    ensures
        result@ == launchers(),
{
    let names = vec![
        "bash",
        "bin_steam.sh",
        "dash",
        "env",
        "flatpak",
        "fish",
        "gamescope",
        "heroic",
        "lutris",
        "perl",
        "proton",
        "python",
        "python3",
        "redunar-daemon",
        "redunar-steam-launch",
        "redunar-tauri",
        "sh",
        "steam",
        "steam.sh",
        "steam-runtime-steam-remote",
        "wine",
        "wine64",
        "zsh",
    ];
    assert(names@ =~= launchers());
    names
}

/// Whether an executable is a launcher which many games share.
pub open spec fn shared_launcher(executable: Seq<u8>) -> bool {
    match paths::final_name(executable) {
        None => false,
        Some(name) => vstd::utf8::valid_utf8(name) && is_launcher_name(
            vstd::utf8::decode_utf8(name),
        ),
    }
}

pub fn is_shared_launcher(executable: &[u8]) -> (result: bool)
    ensures
        result == shared_launcher(executable@),
{
    match paths::file_name(executable) {
        None => false,
        Some(name) => match text::decode(name.as_slice()) {
            None => false,
            Some(decoded) => {
                let chars = text::chars_of(decoded.as_str());
                let names = shared_launchers();
                let mut index: usize = 0;
                while index < names.len()
                    invariant
                        index <= names@.len(),
                        names@ == launchers(),
                        chars@ == decoded@,
                        forall|i: int|
                            0 <= i < index ==> !text::alike(
                                chars@,
                                (#[trigger] launchers()[i])@,
                            ),
                        paths::final_name(executable@) == Some(name@),
                        vstd::utf8::valid_utf8(name@),
                        decoded@ == vstd::utf8::decode_utf8(name@),
                    decreases names@.len() - index,
                {
                    if text::eq_ignore_ascii_case(chars.as_slice(), names[index]) {
                        assert(text::alike(chars@, launchers()[index as int]@));
                        return true;
                    }
                    index = index + 1;
                }
                false
            },
        },
    }
}

/// Where desktop entries and programs are looked for.
#[derive(Debug)]
pub struct DesktopGameDiscovery {
    application_directories: Vec<Vec<u8>>,
    executable_search_directories: Vec<Vec<u8>>,
}

/// What a [`DesktopGameDiscovery`] holds.
#[verifier::ext_equal]
pub ghost struct DesktopSearch {
    pub application_directories: Seq<Seq<u8>>,
    pub executable_search_directories: Seq<Seq<u8>>,
}

impl View for DesktopGameDiscovery {
    type V = DesktopSearch;

    closed spec fn view(&self) -> DesktopSearch {
        DesktopSearch {
            application_directories: text::byte_views(self.application_directories@),
            executable_search_directories: text::byte_views(self.executable_search_directories@),
        }
    }
}

/// The absolute paths among some.
pub open spec fn absolute_paths(list: Seq<Seq<u8>>) -> Seq<Seq<u8>>
    decreases list.len(),
{
    if list.len() == 0 {
        Seq::empty()
    } else if paths::absolute(list.last()) {
        absolute_paths(list.drop_last()).push(list.last())
    } else {
        absolute_paths(list.drop_last())
    }
}

/// The absolute paths of a colon-separated list.
pub open spec fn search_path(list: Seq<u8>) -> Seq<Seq<u8>> {
    absolute_paths(text::nonempty_parts(list, COLON))
}

fn split_search_path(list: &[u8]) -> (result: Vec<Vec<u8>>)
    ensures
        text::byte_views(result@) == search_path(list@),
{
    let parts = text::split_nonempty(list, COLON);
    let ghost all = text::byte_views(parts@);
    let mut found: Vec<Vec<u8>> = Vec::new();
    let mut index: usize = 0;
    assert(all.take(0) =~= Seq::<Seq<u8>>::empty());
    assert(text::byte_views(found@) =~= Seq::<Seq<u8>>::empty());
    while index < parts.len()
        invariant
            index <= parts@.len(),
            all == text::byte_views(parts@),
            text::byte_views(found@) == absolute_paths(all.take(index as int)),
        decreases parts@.len() - index,
    {
        let ghost before = text::byte_views(found@);
        assert(all.take(index + 1).drop_last() =~= all.take(index as int));
        assert(all.take(index + 1).last() == parts@[index as int]@);
        if paths::is_absolute(parts[index].as_slice()) {
            found.push(vstd::slice::slice_to_vec(parts[index].as_slice()));
            assert(text::byte_views(found@) =~= before.push(parts@[index as int]@));
        }
        index = index + 1;
    }
    assert(all.take(index as int) =~= all);
    found
}

/// A subdirectory of each of some directories.
pub open spec fn below_each(directories: Seq<Seq<u8>>, name: Seq<u8>) -> Seq<Seq<u8>> {
    directories.map_values(|directory: Seq<u8>| paths::joined(directory, name))
}

fn join_each(directories: &[Vec<u8>], name: &[u8]) -> (result: Vec<Vec<u8>>)
    ensures
        text::byte_views(result@) == below_each(text::byte_views(directories@), name@),
{
    let ghost wanted = below_each(text::byte_views(directories@), name@);
    let mut joined: Vec<Vec<u8>> = Vec::new();
    let mut index: usize = 0;
    assert(text::byte_views(joined@) =~= wanted.take(0));
    while index < directories.len()
        invariant
            index <= directories@.len(),
            wanted == below_each(text::byte_views(directories@), name@),
            text::byte_views(joined@) == wanted.take(index as int),
        decreases directories@.len() - index,
    {
        let ghost before = text::byte_views(joined@);
        let path = paths::join(directories[index].as_slice(), name);
        joined.push(path);
        assert(text::byte_views(joined@) =~= before.push(path@));
        assert(wanted.take(index + 1) =~= before.push(wanted[index as int]));
        index = index + 1;
    }
    assert(wanted.take(index as int) =~= wanted);
    joined
}

/// The search that a user's environment gives. Relative entries are ignored.
pub open spec fn environment_search(
    home: Seq<u8>,
    data_home: Option<Seq<u8>>,
    data_directories: Option<Seq<u8>>,
    path: Option<Seq<u8>>,
) -> DesktopSearch {
    let own = match data_home {
        Some(directory) => if paths::absolute(directory) {
            directory
        } else {
            paths::joined(home, ".local/share".spec_bytes())
        },
        None => paths::joined(home, ".local/share".spec_bytes()),
    };
    let shared = match data_directories {
        Some(list) => list,
        None => "/usr/local/share:/usr/share".spec_bytes(),
    };
    DesktopSearch {
        application_directories: seq![paths::joined(own, "applications".spec_bytes())]
            + below_each(search_path(shared), "applications".spec_bytes()),
        executable_search_directories: match path {
            Some(list) => search_path(list),
            None => Seq::empty(),
        },
    }
}

/// The bytes of an optional value.
pub open spec fn optional_bytes(value: Option<&[u8]>) -> Option<Seq<u8>> {
    match value {
        Some(value) => Some(value@),
        None => None,
    }
}

impl DesktopGameDiscovery {
    pub fn new(
        application_directories: Vec<Vec<u8>>,
        executable_search_directories: Vec<Vec<u8>>,
    ) -> (result: Self)
        ensures
            result@ == (DesktopSearch {
                application_directories: text::byte_views(application_directories@),
                executable_search_directories: text::byte_views(executable_search_directories@),
            }),
    {
        DesktopGameDiscovery { application_directories, executable_search_directories }
    }

    /// The search that a user's environment gives, from the home directory
    /// and the values of `XDG_DATA_HOME`, `XDG_DATA_DIRS` and `PATH`.
    pub fn from_environment(
        home_directory: &[u8],
        data_home: Option<&[u8]>,
        data_directories: Option<&[u8]>,
        path: Option<&[u8]>,
    ) -> (result: Self)
        ensures
            result@ == environment_search(
                home_directory@,
                optional_bytes(data_home),
                optional_bytes(data_directories),
                optional_bytes(path),
            ),
    {
        let fallback = paths::join(home_directory, ".local/share".as_bytes());
        let own: &[u8] = match data_home {
            Some(directory) => if paths::is_absolute(directory) {
                directory
            } else {
                fallback.as_slice()
            },
            None => fallback.as_slice(),
        };
        let shared: &[u8] = match data_directories {
            Some(list) => list,
            None => "/usr/local/share:/usr/share".as_bytes(),
        };
        let mut application_directories: Vec<Vec<u8>> = Vec::new();
        application_directories.push(paths::join(own, "applications".as_bytes()));
        let shared_directories = split_search_path(shared);
        let mut below = join_each(shared_directories.as_slice(), "applications".as_bytes());
        let ghost first = application_directories@;
        let ghost further = below@;
        application_directories.append(&mut below);
        assert(application_directories@ =~= first + further);
        assert(text::byte_views(first + further) =~= text::byte_views(first) + text::byte_views(
            further,
        ));
        assert(text::byte_views(first) =~= seq![
            paths::joined(own@, "applications".spec_bytes()),
        ]);
        let executable_search_directories = match path {
            Some(list) => split_search_path(list),
            None => {
                let none: Vec<Vec<u8>> = Vec::new();
                assert(text::byte_views(none@) =~= Seq::<Seq<u8>>::empty());
                none
            },
        };
        DesktopGameDiscovery::new(application_directories, executable_search_directories)
    }

    pub fn application_directories(&self) -> (result: &[Vec<u8>])
        ensures
            text::byte_views(result@) == self@.application_directories,
    {
        self.application_directories.as_slice()
    }

    /// Accepts a search whose directories are all absolute.
    pub fn check_directories(&self) -> (result: Result<(), GameDiscoveryError>)
        ensures
            match result {
                Ok(()) => all_absolute(self@.application_directories) && all_absolute(
                    self@.executable_search_directories,
                ),
                Err(error) => !(all_absolute(self@.application_directories) && all_absolute(
                    self@.executable_search_directories,
                )) && error@ == "desktop game discovery paths must be absolute"@,
            },
    {
        if !are_absolute(self.application_directories.as_slice()) || !are_absolute(
            self.executable_search_directories.as_slice(),
        ) {
            return Err(GameDiscoveryError::new("desktop game discovery paths must be absolute"));
        }
        Ok(())
    }

    /// Where a program may be, in order. A relative name of more than one
    /// component is nowhere, and a path that is too long is passed over.
    pub fn executable_candidates(&self, program: &[u8]) -> (result: Vec<Vec<u8>>)
        ensures
            text::byte_views(result@) == short_paths(
                if paths::absolute(program@) {
                    seq![program@]
                } else if paths::single_name(program@) {
                    below_each(self@.executable_search_directories, program@)
                } else {
                    Seq::empty()
                },
            ),
    {
        let mut found: Vec<Vec<u8>> = Vec::new();
        assert(text::byte_views(found@) =~= Seq::<Seq<u8>>::empty());
        if paths::is_absolute(program) {
            found.push(vstd::slice::slice_to_vec(program));
            assert(text::byte_views(found@) =~= seq![program@]);
        } else if paths::is_single_path_component(program) {
            found = join_each(self.executable_search_directories.as_slice(), program);
        }
        keep_short(found)
    }
}

/// The paths of an acceptable length among some.
pub open spec fn short_paths(list: Seq<Seq<u8>>) -> Seq<Seq<u8>>
    decreases list.len(),
{
    if list.len() == 0 {
        Seq::empty()
    } else if list.last().len() <= MAX_PATH_BYTES {
        short_paths(list.drop_last()).push(list.last())
    } else {
        short_paths(list.drop_last())
    }
}

fn keep_short(list: Vec<Vec<u8>>) -> (result: Vec<Vec<u8>>)
    ensures
        text::byte_views(result@) == short_paths(text::byte_views(list@)),
{
    let ghost all = text::byte_views(list@);
    let mut found: Vec<Vec<u8>> = Vec::new();
    let mut index: usize = 0;
    assert(all.take(0) =~= Seq::<Seq<u8>>::empty());
    assert(text::byte_views(found@) =~= Seq::<Seq<u8>>::empty());
    while index < list.len()
        invariant
            index <= list@.len(),
            all == text::byte_views(list@),
            text::byte_views(found@) == short_paths(all.take(index as int)),
        decreases list@.len() - index,
    {
        let ghost before = text::byte_views(found@);
        assert(all.take(index + 1).drop_last() =~= all.take(index as int));
        assert(all.take(index + 1).last() == list@[index as int]@);
        if list[index].len() <= MAX_PATH_BYTES {
            found.push(vstd::slice::slice_to_vec(list[index].as_slice()));
            assert(text::byte_views(found@) =~= before.push(list@[index as int]@));
        }
        index = index + 1;
    }
    assert(all.take(index as int) =~= all);
    found
}

/// Whether all of some paths are absolute.
pub open spec fn all_absolute(list: Seq<Seq<u8>>) -> bool {
    forall|i: int| 0 <= i < list.len() ==> paths::absolute(#[trigger] list[i])
}

fn are_absolute(list: &[Vec<u8>]) -> (result: bool)
    ensures
        result == all_absolute(text::byte_views(list@)),
{
    let ghost all = text::byte_views(list@);
    let mut index: usize = 0;
    while index < list.len()
        invariant
            index <= list@.len(),
            all == text::byte_views(list@),
            forall|i: int| 0 <= i < index ==> paths::absolute(#[trigger] all[i]),
        decreases list@.len() - index,
    {
        assert(all[index as int] == list@[index as int]@);
        if !paths::is_absolute(list[index].as_slice()) {
            return false;
        }
        index = index + 1;
    }
    true
}

/// Whether a path ends in the extension of desktop entries.
pub open spec fn is_desktop_file(path: Seq<u8>) -> bool {
    match paths::final_name(path) {
        None => false,
        Some(name) => text::before_suffix(name, ".desktop".spec_bytes()) matches Some(stem)
            && stem.len() > 0,
    }
}

fn has_desktop_extension(path: &[u8]) -> (result: bool)
    ensures
        result == is_desktop_file(path@),
{
    proof {
        reveal_strlit(".desktop");
        assert(".desktop".is_ascii());
    }
    match paths::file_name(path) {
        None => false,
        Some(name) => {
            let suffix = ".desktop".as_bytes();
            assert(suffix@.len() == 8);
            if name.len() <= suffix.len() {
                return false;
            }
            let end = vstd::slice::slice_subrange(
                name.as_slice(),
                name.len() - suffix.len(),
                name.len(),
            );
            assert(end@ =~= name@.skip(name@.len() - suffix@.len()));
            text::same_bytes(end, suffix)
        },
    }
}

/// The desktop entries among paths.
pub open spec fn desktop_paths(list: Seq<Seq<u8>>) -> Seq<Seq<u8>>
    decreases list.len(),
{
    if list.len() == 0 {
        Seq::empty()
    } else if is_desktop_file(list.last()) {
        desktop_paths(list.drop_last()).push(list.last())
    } else {
        desktop_paths(list.drop_last())
    }
}

/// Picks the desktop entries among the paths of a directory, in order.
pub fn desktop_files(list: &[Vec<u8>]) -> (result: PathMap<()>)
    ensures
        result@ == steam_discovery::path_set(desktop_paths(text::byte_views(list@))),
{
    let ghost all = text::byte_views(list@);
    let mut found: Vec<Vec<u8>> = Vec::new();
    let mut index: usize = 0;
    assert(all.take(0) =~= Seq::<Seq<u8>>::empty());
    assert(text::byte_views(found@) =~= Seq::<Seq<u8>>::empty());
    while index < list.len()
        invariant
            index <= list@.len(),
            all == text::byte_views(list@),
            text::byte_views(found@) == desktop_paths(all.take(index as int)),
        decreases list@.len() - index,
    {
        let ghost before = text::byte_views(found@);
        assert(all.take(index + 1).drop_last() =~= all.take(index as int));
        assert(all.take(index + 1).last() == list@[index as int]@);
        if has_desktop_extension(list[index].as_slice()) {
            found.push(vstd::slice::slice_to_vec(list[index].as_slice()));
            assert(text::byte_views(found@) =~= before.push(list@[index as int]@));
        }
        index = index + 1;
    }
    assert(all.take(index as int) =~= all);
    steam_launch_options::ordered_paths(found.as_slice())
}

/// How many more files are taken after those that were.
pub fn remaining_files(taken: usize) -> (result: usize)
    ensures
        result == (if taken <= MAX_DESKTOP_FILES {
            MAX_DESKTOP_FILES - taken
        } else {
            0
        }),
{
    MAX_DESKTOP_FILES.saturating_sub(taken)
}

/// The text of a desktop file of an acceptable size.
pub fn desktop_text(bytes: &[u8]) -> (result: Option<String>)
    ensures
        match result {
            Some(text) => bytes@.len() <= MAX_DESKTOP_FILE_BYTES && vstd::utf8::valid_utf8(bytes@)
                && text@ == vstd::utf8::decode_utf8(bytes@),
            None => bytes@.len() > MAX_DESKTOP_FILE_BYTES || !vstd::utf8::valid_utf8(bytes@),
        },
{
    if bytes.len() as u64 > MAX_DESKTOP_FILE_BYTES {
        return None;
    }
    text::decode(bytes)
}

/// Accepts a path for resolving: absolute and of an acceptable length.
pub fn is_safe_path(path: &[u8]) -> (result: bool)
    ensures
        result == (paths::absolute(path@) && path@.len() <= MAX_PATH_BYTES),
{
    paths::is_absolute(path) && path.len() <= MAX_PATH_BYTES
}

/// The arguments of a command as bytes.
pub open spec fn argument_bytes(arguments: Seq<Seq<char>>) -> Seq<Seq<u8>> {
    arguments.map_values(|argument: Seq<char>| vstd::utf8::encode_utf8(argument))
}

fn arguments_of(arguments: &[String]) -> (result: Vec<Vec<u8>>)
    ensures
        text::byte_views(result@) == argument_bytes(steam_discovery::texts(arguments@)),
{
    let ghost wanted = argument_bytes(steam_discovery::texts(arguments@));
    let mut result: Vec<Vec<u8>> = Vec::new();
    let mut index: usize = 0;
    assert(text::byte_views(result@) =~= wanted.take(0));
    while index < arguments.len()
        invariant
            index <= arguments@.len(),
            wanted == argument_bytes(steam_discovery::texts(arguments@)),
            text::byte_views(result@) == wanted.take(index as int),
        decreases arguments@.len() - index,
    {
        let ghost before = text::byte_views(result@);
        let bytes = vstd::slice::slice_to_vec(arguments[index].as_str().as_bytes());
        result.push(bytes);
        assert(text::byte_views(result@) =~= before.push(bytes@));
        assert(wanted.take(index + 1) =~= before.push(wanted[index as int]));
        index = index + 1;
    }
    assert(wanted.take(index as int) =~= wanted);
    result
}

/// The game of an entry whose paths were resolved: the real place of its
/// program, whether its trial program was found, and the real places of its
/// working directory and poster.
pub open spec fn resolved_game(
    path: Seq<u8>,
    launch: DesktopLaunchView,
    executable: Seq<u8>,
    try_exec_found: bool,
    working_directory: Option<Seq<u8>>,
    poster_path: Option<Seq<u8>>,
) -> Option<GameView> {
    let program = vstd::utf8::encode_utf8(launch.program);
    let install_directory = match working_directory {
        Some(directory) => Some(directory),
        None => paths::parent_of(executable),
    };
    let name = paths::final_name(executable);
    if shared_launcher(program) || shared_launcher(executable) {
        None
    } else if launch.try_exec is Some && !try_exec_found {
        None
    } else if launch.working_directory is Some && working_directory is None {
        None
    } else if install_directory is None || name is None || !vstd::utf8::valid_utf8(name->0) {
        None
    } else {
        Some(
            GameView {
                display_name: launch.name,
                install_directory: install_directory->0,
                poster_path,
                launch: Some(
                    LaunchView {
                        executable,
                        arguments: argument_bytes(launch.arguments),
                        working_directory,
                    },
                ),
                match_rules: seq![
                    RuleView::Executable(executable),
                    RuleView::ExecutableName(vstd::utf8::decode_utf8(name->0)),
                ],
                source: SourceView::DesktopEntry { path },
            },
        )
    }
}

/// Makes a game of an entry whose paths were resolved.
pub fn desktop_game(
    path: &[u8],
    launch: DesktopLaunch,
    executable: &[u8],
    try_exec_found: bool,
    working_directory: Option<Vec<u8>>,
    poster_path: Option<Vec<u8>>,
) -> (result: Option<DiscoveredGame>)
    requires
        paths::absolute(executable@),
    ensures
        ({
            let expected = resolved_game(
                path@,
                launch@,
                executable@,
                try_exec_found,
                games::optional_path(working_directory),
                games::optional_path(poster_path),
            );
            match result {
                Some(game) => expected == Some(game@),
                None => expected is None,
            }
        }),
{
    if is_shared_launcher(launch.program.as_str().as_bytes()) || is_shared_launcher(executable) {
        return None;
    }
    if launch.try_exec.is_some() && !try_exec_found {
        return None;
    }
    if launch.working_directory.is_some() && working_directory.is_none() {
        return None;
    }
    let install_directory = match &working_directory {
        Some(directory) => vstd::slice::slice_to_vec(directory.as_slice()),
        None => match paths::parent(executable) {
            Some(directory) => directory,
            None => {
                return None;
            },
        },
    };
    let name = match paths::file_name(executable) {
        None => {
            return None;
        },
        Some(name) => match text::decode(name.as_slice()) {
            None => {
                return None;
            },
            Some(decoded) => decoded,
        },
    };
    let arguments = arguments_of(launch.arguments.as_slice());
    let ghost spelled = name@;
    let mut match_rules: Vec<GameMatchRule> = Vec::new();
    match_rules.push(GameMatchRule::Executable(vstd::slice::slice_to_vec(executable)));
    match_rules.push(GameMatchRule::ExecutableName(name));
    assert(match_rules@.map_values(|rule: GameMatchRule| rule@) =~= seq![
        RuleView::Executable(executable@),
        RuleView::ExecutableName(spelled),
    ]);
    Some(
        DiscoveredGame {
            display_name: launch.name,
            install_directory,
            poster_path,
            launch: Some(
                GameLaunchConfig {
                    executable: vstd::slice::slice_to_vec(executable),
                    arguments,
                    working_directory,
                },
            ),
            match_rules,
            source: GameDiscoverySource::DesktopEntry { path: vstd::slice::slice_to_vec(path) },
        },
    )
}

/// Games after one more was found: the first game of each executable is
/// kept, as long as there is room.
pub open spec fn with_game(
    games: Seq<(Seq<u8>, DiscoveredGame)>,
    game: DiscoveredGame,
) -> Seq<(Seq<u8>, DiscoveredGame)> {
    if games.len() >= MAX_DISCOVERED_GAMES {
        games
    } else {
        match game.launch {
            None => games,
            Some(launch) => path_map::placed(games, launch.executable@, game),
        }
    }
}

/// Adds a game that was found.
pub fn add_game(games: &mut PathMap<DiscoveredGame>, game: DiscoveredGame)
    ensures
        final(games)@ == with_game(old(games)@, game),
{
    if games.len() >= MAX_DISCOVERED_GAMES {
        return;
    }
    let executable = match &game.launch {
        None => {
            return;
        },
        Some(launch) => vstd::slice::slice_to_vec(launch.executable.as_slice()),
    };
    let _ = games.insert_if_absent(executable, game);
}

/// A search path holds absolute directories alone, whatever the list holds.
pub proof fn search_paths_are_absolute(list: Seq<u8>)
    ensures
        all_absolute(search_path(list)),
{
    lemma_absolute_paths(text::nonempty_parts(list, COLON));
}

proof fn lemma_absolute_paths(list: Seq<Seq<u8>>)
    ensures
        all_absolute(absolute_paths(list)),
    decreases list.len(),
{
    if list.len() > 0 {
        lemma_absolute_paths(list.drop_last());
        let before = absolute_paths(list.drop_last());
        assert forall|i: int| 0 <= i < absolute_paths(list).len() implies paths::absolute(
            #[trigger] absolute_paths(list)[i],
        ) by {
            if i < before.len() {
                assert(paths::absolute(before[i]));
            }
        }
    }
}

/// A word between quotes, with a backslash before each quote and backslash.
pub open spec fn quoted_word(word: Seq<char>) -> Seq<char> {
    seq!['"'] + escaped_word(word) + seq!['"']
}

pub open spec fn escaped_word(word: Seq<char>) -> Seq<char>
    decreases word.len(),
{
    if word.len() == 0 {
        Seq::empty()
    } else if word[0] == '"' || word[0] == '\\' {
        seq!['\\', word[0]] + escaped_word(word.skip(1))
    } else {
        seq![word[0]] + escaped_word(word.skip(1))
    }
}

/// Words between quotes, each with a space behind it.
pub open spec fn quoted_words(words: Seq<Seq<char>>) -> Seq<char>
    decreases words.len(),
{
    if words.len() == 0 {
        Seq::empty()
    } else {
        quoted_word(words[0]) + seq![' '] + quoted_words(words.skip(1))
    }
}

proof fn lemma_word_read(state: TokenState, word: Seq<char>, rest: Seq<char>)
    requires
        state.quoted,
        !state.escaped,
        state.started,
        forall|i: int|
            0 <= i < word.len() ==> !text::is_control_code(#[trigger] word[i]),
    ensures
        after_chars(state, escaped_word(word) + rest) == after_chars(
            TokenState { current: state.current + word, ..state },
            rest,
        ),
    decreases word.len(),
{
    let all = escaped_word(word) + rest;
    if word.len() == 0 {
        assert(all =~= rest);
        assert(state.current + word =~= state.current);
    } else {
        let first = word[0];
        let later = word.skip(1);
        let next = TokenState { current: state.current.push(first), ..state };
        assert(!text::is_control_code(first));
        assert forall|i: int| 0 <= i < later.len() implies !text::is_control_code(
            #[trigger] later[i],
        ) by {
            assert(later[i] == word[i + 1]);
        }
        lemma_word_read(next, later, rest);
        assert(next.current + later =~= state.current + word);
        if first == '"' || first == '\\' {
            let middle = TokenState { escaped: true, ..state };
            assert(all[0] == '\\' && all[1] == first);
            assert(all.skip(1)[0] == first);
            assert(all.skip(1).skip(1) =~= escaped_word(later) + rest);
            assert(after_char(state, '\\') == Some(middle));
            assert(after_char(middle, first) == Some(next));
            assert(after_chars(state, all) == after_chars(middle, all.skip(1)));
        } else {
            assert(all[0] == first);
            assert(all.skip(1) =~= escaped_word(later) + rest);
            assert(after_char(state, first) == Some(next));
        }
    }
}

#[verifier::spinoff_prover]
proof fn lemma_words_read(tokens: Seq<Seq<char>>, words: Seq<Seq<char>>)
    requires
        tokens.len() + words.len() <= 65,
        forall|i: int, j: int|
            0 <= i < words.len() && 0 <= j < words[i].len() ==> !text::is_control_code(
                #[trigger] words[i][j],
            ),
    ensures
        after_chars(
            TokenState {
                tokens,
                current: Seq::empty(),
                quoted: false,
                escaped: false,
                started: false,
            },
            quoted_words(words),
        ) == Some(
            TokenState {
                tokens: tokens + words,
                current: Seq::empty(),
                quoted: false,
                escaped: false,
                started: false,
            },
        ),
    decreases words.len(),
{
    let start = TokenState {
        tokens,
        current: Seq::empty(),
        quoted: false,
        escaped: false,
        started: false,
    };
    let all = quoted_words(words);
    if words.len() == 0 {
        assert(tokens + words =~= tokens);
    } else {
        let word = words[0];
        let later = words.skip(1);
        let tail = quoted_words(later);
        let rest = seq!['"'] + (seq![' '] + tail);
        let opened = TokenState { quoted: true, started: true, ..start };
        assert(all[0] == '"');
        assert(all.skip(1) =~= escaped_word(word) + rest);
        assert(after_char(start, '"') == Some(opened));
        assert forall|j: int| 0 <= j < word.len() implies !text::is_control_code(
            #[trigger] word[j],
        ) by {
            assert(!text::is_control_code(words[0][j]));
        }
        lemma_word_read(opened, word, rest);
        assert(opened.current + word =~= word);
        let read = TokenState { current: word, ..opened };
        let closed = TokenState { quoted: false, ..read };
        assert(rest[0] == '"');
        assert(rest.skip(1) =~= seq![' '] + tail);
        assert(after_char(read, '"') == Some(closed));
        let gap = seq![' '] + tail;
        assert(gap[0] == ' ');
        assert(text::is_space(' '));
        assert(gap.skip(1) =~= tail);
        let next = TokenState { tokens: tokens.push(word), ..start };
        assert(after_char(closed, ' ') == Some(next));
        assert(after_chars(read, rest) == after_chars(closed, gap));
        assert(after_chars(closed, gap) == after_chars(next, tail));
        assert forall|i: int, j: int|
            0 <= i < later.len() && 0 <= j < later[i].len() implies !text::is_control_code(
            #[trigger] later[i][j],
        ) by {
            assert(later[i] == words[i + 1]);
            assert(!text::is_control_code(words[i + 1][j]));
        }
        lemma_words_read(tokens.push(word), later);
        assert(tokens.push(word) + later =~= tokens + words);
    }
}

/// A command of up to 65 quoted words is taken apart into these words, whatever
/// spaces, quotes and backslashes they hold.
pub proof fn quoted_words_are_taken_apart(words: Seq<Seq<char>>)
    requires
        0 < words.len() <= 65,
        forall|i: int, j: int|
            0 <= i < words.len() && 0 <= j < words[i].len() ==> !text::is_control_code(
                #[trigger] words[i][j],
            ),
        vstd::utf8::encode_utf8(quoted_words(words)).len() <= 32_768,
    ensures
        tokenized(quoted_words(words)) == Some(words),
{
    let none = Seq::<Seq<char>>::empty();
    lemma_words_read(none, words);
    assert(none + words =~= words);
    assert(quoted_words(words).len() > 0);
}

/// A text with each percent sign doubled.
pub open spec fn percents_doubled(word: Seq<char>) -> Seq<char>
    decreases word.len(),
{
    if word.len() == 0 {
        Seq::empty()
    } else if word[0] == '%' {
        seq!['%', '%'] + percents_doubled(word.skip(1))
    } else {
        seq![word[0]] + percents_doubled(word.skip(1))
    }
}

/// A doubled percent sign stands for one. One that stands alone, or before
/// anything else, makes the word unusable.
pub proof fn doubled_percents_stand_for_one(word: Seq<char>, code: char, rest: Seq<char>)
    ensures
        expanded(percents_doubled(word)) == Some(word),
        code != '%' ==> expanded(percents_doubled(word) + seq!['%', code] + rest) is None,
        expanded(percents_doubled(word) + seq!['%']) is None,
    decreases word.len(),
{
    let doubled = percents_doubled(word);
    let coded = doubled + seq!['%', code] + rest;
    let alone = doubled + seq!['%'];
    if word.len() == 0 {
        assert(word =~= Seq::<char>::empty());
        assert(coded[0] == '%' && coded[1] == code);
        assert(alone =~= seq!['%']);
    } else {
        let later = word.skip(1);
        doubled_percents_stand_for_one(later, code, rest);
        let shorter = percents_doubled(later);
        assert(seq![word[0]] + later =~= word);
        if word[0] == '%' {
            assert(doubled.skip(2) =~= shorter);
            assert(coded[0] == '%' && coded[1] == '%');
            assert(coded.skip(2) =~= shorter + seq!['%', code] + rest);
            assert(alone[0] == '%' && alone[1] == '%');
            assert(alone.skip(2) =~= shorter + seq!['%']);
        } else {
            assert(doubled.skip(1) =~= shorter);
            assert(coded[0] == word[0]);
            assert(coded.skip(1) =~= shorter + seq!['%', code] + rest);
            assert(alone[0] == word[0]);
            assert(alone.skip(1) =~= shorter + seq!['%']);
        }
    }
}

/// The places for files and addresses are left out of a command. All other words
/// stay, in order.
pub proof fn places_for_files_are_left_out(before: Seq<Seq<char>>, word: Seq<char>)
    requires
        normalized(before) is Some,
    ensures
        normalized(before.push("%f"@)) == normalized(before),
        normalized(before.push("%F"@)) == normalized(before),
        normalized(before.push("%u"@)) == normalized(before),
        normalized(before.push("%U"@)) == normalized(before),
        normalized(before.push(percents_doubled(word))) == Some(normalized(before)->0.push(word)),
        normalized(before.push("%i"@)) is None,
{
    reveal_strlit("%f");
    reveal_strlit("%F");
    reveal_strlit("%u");
    reveal_strlit("%U");
    reveal_strlit("%i");
    assert(before.push("%f"@).drop_last() =~= before);
    assert(before.push("%F"@).drop_last() =~= before);
    assert(before.push("%u"@).drop_last() =~= before);
    assert(before.push("%U"@).drop_last() =~= before);
    assert(before.push("%i"@).drop_last() =~= before);
    let doubled = percents_doubled(word);
    assert(before.push(doubled).drop_last() =~= before);
    doubled_percents_stand_for_one(word, 'f', Seq::empty());
    if word.len() > 0 && doubled.len() == 2 && doubled[0] == '%' {
        assert(doubled[1] == '%');
    }
    assert("%i"@[1] != '%');
    assert(expanded("%i"@) is None);
}

/// A desktop entry is a game where it is an application of the category, is
/// shown, and needs no terminal.
pub proof fn only_shown_games_are_listed(entry: EntryView)
    requires
        entry_launch(entry) is Some,
    ensures
        entry.entry_type == Some("Application"@),
        entry.categories.contains("Game"@),
        !entry.hidden && !entry.no_display && !entry.terminal,
        entry_launch(entry)->0.name == text::trimmed(entry.name->0),
        entry_launch(entry)->0.try_exec == entry.try_exec,
        entry_launch(entry)->0.working_directory == entry.working_directory,
        entry_launch(entry)->0.icon == entry.icon,
        entry_launch(EntryView { hidden: true, ..entry }) is None,
        entry_launch(EntryView { no_display: true, ..entry }) is None,
        entry_launch(EntryView { terminal: true, ..entry }) is None,
{
}

/// Each key of an entry sets its own field: a text field once, a switch to true
/// or false.
pub proof fn keys_set_their_fields(entry: EntryView, value: Seq<char>, on: bool)
    requires
        vstd::utf8::encode_utf8(value).len() <= 32_768,
        !value.contains('\0'),
    ensures
        entry.entry_type is None ==> assigned(entry, "Type"@, value) == Some(
            EntryView { entry_type: Some(value), ..entry },
        ),
        entry.name is None ==> assigned(entry, "Name"@, value) == Some(
            EntryView { name: Some(value), ..entry },
        ),
        entry.command is None ==> assigned(entry, "Exec"@, value) == Some(
            EntryView { command: Some(value), ..entry },
        ),
        entry.try_exec is None ==> assigned(entry, "TryExec"@, value) == Some(
            EntryView { try_exec: Some(value), ..entry },
        ),
        entry.working_directory is None ==> assigned(entry, "Path"@, value) == Some(
            EntryView { working_directory: Some(value), ..entry },
        ),
        entry.icon is None ==> assigned(entry, "Icon"@, value) == Some(
            EntryView { icon: Some(value), ..entry },
        ),
        entry.name is Some ==> assigned(entry, "Name"@, value) is None,
        entry.command is Some ==> assigned(entry, "Exec"@, value) is None,
        assigned(entry, "Hidden"@, if on { "true"@ } else { "false"@ }) == Some(
            EntryView { hidden: on, ..entry },
        ),
        assigned(entry, "NoDisplay"@, if on { "true"@ } else { "false"@ }) == Some(
            EntryView { no_display: on, ..entry },
        ),
        assigned(entry, "Terminal"@, if on { "true"@ } else { "false"@ }) == Some(
            EntryView { terminal: on, ..entry },
        ),
        entry.categories.len() == 0 ==> assigned(entry, "Categories"@, value) == Some(
            EntryView { categories: text::nonempty_parts(value, ';'), ..entry },
        ),
{
    reveal_strlit("Type");
    reveal_strlit("Name");
    reveal_strlit("Exec");
    reveal_strlit("TryExec");
    reveal_strlit("Path");
    reveal_strlit("Icon");
    reveal_strlit("Categories");
    reveal_strlit("Hidden");
    reveal_strlit("NoDisplay");
    reveal_strlit("Terminal");
    reveal_strlit("true");
    reveal_strlit("false");
    assert("Type"@[0] == 'T' && "Name"@[0] == 'N' && "Exec"@[0] == 'E' && "Path"@[0] == 'P'
        && "Icon"@[0] == 'I');
    assert("Terminal"@.len() == 8 && "NoDisplay"@.len() == 9 && "Hidden"@.len() == 6
        && "TryExec"@.len() == 7 && "Categories"@.len() == 10);
    assert("true"@.len() == 4 && "false"@.len() == 5);
}

/// Directories are looked through in the order of the base directories: the
/// user's own first, then those of the system, or the usual two.
pub proof fn own_applications_come_first(
    home: Seq<u8>,
    own: Seq<u8>,
    shared: Seq<u8>,
    path: Option<Seq<u8>>,
)
    requires
        paths::absolute(own),
    ensures
        environment_search(home, None, Some(shared), path).application_directories[0]
            == paths::joined(
            paths::joined(home, ".local/share".spec_bytes()),
            "applications".spec_bytes(),
        ),
        environment_search(home, Some(own), Some(shared), path).application_directories[0]
            == paths::joined(own, "applications".spec_bytes()),
        environment_search(home, Some(own), Some(shared), path).application_directories.skip(1)
            == below_each(search_path(shared), "applications".spec_bytes()),
        environment_search(home, Some(own), None, path) == environment_search(
            home,
            Some(own),
            Some("/usr/local/share:/usr/share".spec_bytes()),
            path,
        ),
{
    let search = environment_search(home, Some(own), Some(shared), path);
    assert(search.application_directories.skip(1) =~= below_each(
        search_path(shared),
        "applications".spec_bytes(),
    ));
}

/// A program that starts other programs is no game, whatever its letter case and
/// wherever it lies.
pub proof fn launchers_are_no_games(
    path: Seq<u8>,
    launch: DesktopLaunchView,
    executable: Seq<u8>,
    try_exec_found: bool,
    working_directory: Option<Seq<u8>>,
    poster_path: Option<Seq<u8>>,
    name: Seq<char>,
)
    requires
        paths::final_name(executable) == Some(vstd::utf8::encode_utf8(name)),
        text::alike(name, "steam"@) || text::alike(name, "steam.sh"@) || text::alike(
            name,
            "bin_steam.sh"@,
        ) || text::alike(name, "steam-runtime-steam-remote"@) || text::alike(name, "flatpak"@)
            || text::alike(name, "lutris"@) || text::alike(name, "heroic"@) || text::alike(
            name,
            "gamescope"@,
        ) || text::alike(name, "wine"@) || text::alike(name, "wine64"@) || text::alike(
            name,
            "proton"@,
        ) || text::alike(name, "env"@) || text::alike(name, "sh"@) || text::alike(name, "bash"@)
            || text::alike(name, "dash"@) || text::alike(name, "fish"@) || text::alike(
            name,
            "zsh"@,
        ) || text::alike(name, "perl"@) || text::alike(name, "python"@) || text::alike(
            name,
            "python3"@,
        ) || text::alike(name, "redunar-daemon"@) || text::alike(name, "redunar-steam-launch"@)
            || text::alike(name, "redunar-tauri"@),
    ensures
        resolved_game(
            path,
            launch,
            executable,
            try_exec_found,
            working_directory,
            poster_path,
        ) is None,
{
    vstd::utf8::encode_utf8_decode_utf8(name);
    vstd::utf8::encode_utf8_valid_utf8(name);
    let list = launchers();
    assert(list[0]@ == "bash"@ && list[1]@ == "bin_steam.sh"@ && list[2]@ == "dash"@ && list[3]@
        == "env"@ && list[4]@ == "flatpak"@ && list[5]@ == "fish"@ && list[6]@ == "gamescope"@
        && list[7]@ == "heroic"@ && list[8]@ == "lutris"@ && list[9]@ == "perl"@ && list[10]@
        == "proton"@ && list[11]@ == "python"@ && list[12]@ == "python3"@ && list[13]@
        == "redunar-daemon"@ && list[14]@ == "redunar-steam-launch"@ && list[15]@
        == "redunar-tauri"@ && list[16]@ == "sh"@ && list[17]@ == "steam"@ && list[18]@
        == "steam.sh"@ && list[19]@ == "steam-runtime-steam-remote"@ && list[20]@ == "wine"@
        && list[21]@ == "wine64"@ && list[22]@ == "zsh"@);
    assert(list.len() == 23);
    assert(is_launcher_name(name));
}

/// How many desktop entries are looked through, and how large they may be.
pub proof fn desktop_scans_are_bounded()
    ensures
        MAX_DESKTOP_FILE_BYTES == 256 * 1_024,
        MAX_DESKTOP_FILES == 8 * 1_024,
        MAX_DISCOVERED_GAMES == 512,
        MAX_EXEC_BYTES == 32 * 1_024,
        MAX_EXEC_ARGUMENTS == 64,
        MAX_PATH_BYTES == 4 * 1_024,
        MAX_POSTER_BYTES == 20 * 1_024 * 1_024,
{
}

/// A desktop entry is a file whose name ends in `.desktop` behind something
/// else.
pub proof fn desktop_entries_are_told_by_their_ending(path: Seq<u8>, stem: Seq<u8>)
    requires
        paths::final_name(path) == Some(stem + ".desktop".spec_bytes()),
    ensures
        is_desktop_file(path) <==> stem.len() > 0,
{
    let ending = ".desktop".spec_bytes();
    let name = stem + ending;
    assert(name.skip(name.len() - ending.len()) =~= ending);
    assert(name.take(name.len() - ending.len()) =~= stem);
}

/// Only the lines of the entry's own group count, and of these neither empty
/// ones nor comments. A line sets the key before its first equals sign to what
/// stands behind it.
pub proof fn only_the_own_group_counts(state: EntryState, line: Seq<char>)
    requires
        text::trimmed(line) == line,
    ensures
        line.len() == 0 ==> after_line(state, line) == Some(state),
        line.len() > 0 && line[0] == '#' ==> after_line(state, line) == Some(state),
        line.len() > 0 && line[0] != '[' && !state.inside ==> after_line(state, line) == Some(state),
        line == "[Desktop Entry]"@ && !state.seen ==> after_line(state, line) == Some(
            EntryState { inside: true, seen: true, ..state },
        ),
        line == "[Desktop Entry]"@ && state.seen ==> after_line(state, line) is None,
        line.len() > 0 && line[0] == '[' && line != "[Desktop Entry]"@ ==> after_line(state, line)
            == Some(EntryState { inside: false, ..state }),
        line.len() > 0 && line[0] != '[' && line[0] != '#' && state.inside ==> after_line(
            state,
            line,
        ) == (match text::split_at_first(line, '=') {
            None => None,
            Some((key, value)) => match assigned(state.entry, key, value) {
                None => None,
                Some(entry) => Some(EntryState { entry, ..state }),
            },
        }),
{
    reveal_strlit("[Desktop Entry]");
    assert("[Desktop Entry]"@[0] == '[');
}

/// A listed game runs its own program with the words of its entry, in the
/// directory that the entry names, and is told again by that program. An entry
/// whose directory or required program is missing is not listed.
pub proof fn listed_games_run_their_program(
    path: Seq<u8>,
    launch: DesktopLaunchView,
    executable: Seq<u8>,
    try_exec_found: bool,
    working_directory: Option<Seq<u8>>,
    poster_path: Option<Seq<u8>>,
)
    ensures
        resolved_game(
            path,
            launch,
            executable,
            try_exec_found,
            working_directory,
            poster_path,
        ) matches Some(game) ==> {
            &&& game.display_name == launch.name
            &&& game.poster_path == poster_path
            &&& game.launch matches Some(run) && run.executable == executable
                && run.working_directory == working_directory && run.arguments.len()
                == launch.arguments.len() && (forall|i: int|
                0 <= i < run.arguments.len() ==> #[trigger] run.arguments[i]
                    == vstd::utf8::encode_utf8(launch.arguments[i]))
            &&& game.match_rules[0] == RuleView::Executable(executable)
            &&& game.source == (SourceView::DesktopEntry { path })
            &&& working_directory matches Some(directory) ==> game.install_directory == directory
            &&& working_directory is None ==> Some(game.install_directory) == paths::parent_of(
                executable,
            )
        },
        launch.try_exec is Some && !try_exec_found ==> resolved_game(
            path,
            launch,
            executable,
            try_exec_found,
            working_directory,
            poster_path,
        ) is None,
        launch.working_directory is Some && working_directory is None ==> resolved_game(
            path,
            launch,
            executable,
            try_exec_found,
            working_directory,
            poster_path,
        ) is None,
{
}

/// Of a search path the absolute directories are looked through, and of a
/// directory the desktop entries, in their order.
pub proof fn searches_keep_their_order(list: Seq<Seq<u8>>)
    ensures
        absolute_paths(list) == list.filter(|path: Seq<u8>| paths::absolute(path)),
        short_paths(list) == list.filter(|path: Seq<u8>| path.len() <= 4_096),
        desktop_paths(list) == list.filter(|path: Seq<u8>| is_desktop_file(path)),
    decreases list.len(),
{
    reveal(Seq::filter);
    let rooted = |path: Seq<u8>| paths::absolute(path);
    let short = |path: Seq<u8>| path.len() <= 4_096;
    let entry = |path: Seq<u8>| is_desktop_file(path);
    if list.len() > 0 {
        searches_keep_their_order(list.drop_last());
        assert(absolute_paths(list.drop_last()) == list.drop_last().filter(rooted));
        assert(short_paths(list.drop_last()) == list.drop_last().filter(short));
        assert(desktop_paths(list.drop_last()) == list.drop_last().filter(entry));
    }
    assert(absolute_paths(list) == list.filter(rooted));
    assert(short_paths(list) == list.filter(short));
    assert(desktop_paths(list) == list.filter(entry));
}

/// 512 games are listed at most.
pub proof fn a_full_list_stays_as_it_is(
    games: Seq<(Seq<u8>, DiscoveredGame)>,
    game: DiscoveredGame,
)
    ensures
        games.len() >= 512 ==> with_game(games, game) == games,
        game.launch is None ==> with_game(games, game) == games,
        games.len() < 512 ==> (game.launch matches Some(run) ==> with_game(games, game)
            == path_map::placed(games, run.executable@, game)),
{
}

/// A key and its value on a line.
pub open spec fn key_line(key: Seq<char>, value: Seq<char>) -> Seq<char> {
    key + seq!['='] + value
}

proof fn lemma_key_line(state: EntryState, key: Seq<char>, value: Seq<char>, entry: EntryView)
    requires
        state.inside,
        key.len() > 0,
        'A' <= key[0] <= 'Z',
        !key.contains('='),
        value.len() > 0,
        '!' <= value.last() <= '~',
        assigned(state.entry, key, value) == Some(entry),
    ensures
        after_line(state, key_line(key, value)) == Some(EntryState { entry, ..state }),
{
    let line = key_line(key, value);
    assert(line[0] == key[0]);
    assert(line.last() == value.last());
    text::plain_ends_stay(line);
    assert forall|i: int| 0 <= i < key.len() implies #[trigger] key[i] != '=' by {
        assert(key.contains(key[i]));
    }
    text::lemma_field_splits(key, '=', value);
    only_the_own_group_counts(state, line);
}

/// An entry of a game is read: its name and its command, and that it is one.
#[verifier::spinoff_prover]
pub proof fn game_entries_are_read(name: Seq<char>, command: Seq<char>)
    requires
        name.len() > 0 && '!' <= name.last() <= '~',
        command.len() > 0 && '!' <= command.last() <= '~',
        !name.contains('\0') && !command.contains('\0'),
        vstd::utf8::encode_utf8(name).len() <= 32_768,
        vstd::utf8::encode_utf8(command).len() <= 32_768,
    ensures
        ({
            let lines = seq![
                "[Desktop Entry]"@,
                key_line("Type"@, "Application"@),
                key_line("Name"@, name),
                key_line("Exec"@, command),
                key_line("Terminal"@, "false"@),
            ];
            after_lines(EntryState { entry: empty_entry(), inside: false, seen: false }, lines)
                == Some(
                EntryState {
                    entry: EntryView {
                        entry_type: Some("Application"@),
                        name: Some(name),
                        command: Some(command),
                        ..empty_entry()
                    },
                    inside: true,
                    seen: true,
                },
            )
        }),
{
    reveal_strlit("[Desktop Entry]");
    reveal_strlit("Application");
    reveal_strlit("Type");
    reveal_strlit("Name");
    reveal_strlit("Exec");
    reveal_strlit("Terminal");
    reveal_strlit("false");
    let lines = seq![
        "[Desktop Entry]"@,
        key_line("Type"@, "Application"@),
        key_line("Name"@, name),
        key_line("Exec"@, command),
        key_line("Terminal"@, "false"@),
    ];
    let first = EntryState { entry: empty_entry(), inside: false, seen: false };
    let second = EntryState { inside: true, seen: true, ..first };
    text::plain_ends_stay("[Desktop Entry]"@);
    only_the_own_group_counts(first, "[Desktop Entry]"@);
    assert("Application".is_ascii());
    assert(vstd::utf8::encode_utf8("Application"@) == "Application".spec_bytes());
    assert("Application".spec_bytes().len() == 11);
    assert(!"Application"@.contains('\0'));
    keys_set_their_fields(second.entry, "Application"@, false);
    let typed = EntryView { entry_type: Some("Application"@), ..second.entry };
    lemma_key_line(second, "Type"@, "Application"@, typed);
    let third = EntryState { entry: typed, ..second };
    keys_set_their_fields(typed, name, false);
    let named = EntryView { name: Some(name), ..typed };
    lemma_key_line(third, "Name"@, name, named);
    let fourth = EntryState { entry: named, ..second };
    keys_set_their_fields(named, command, false);
    let run = EntryView { command: Some(command), ..named };
    lemma_key_line(fourth, "Exec"@, command, run);
    let fifth = EntryState { entry: run, ..second };
    keys_set_their_fields(run, name, false);
    let last = EntryView { terminal: false, ..run };
    lemma_key_line(fifth, "Terminal"@, "false"@, last);
    let one = lines.skip(1);
    let two = one.skip(1);
    let three = two.skip(1);
    let four = three.skip(1);
    let five = four.skip(1);
    assert(one[0] == lines[1] && two[0] == lines[2] && three[0] == lines[3] && four[0] == lines[4]);
    assert(five =~= Seq::<Seq<char>>::empty());
    let end = EntryState { entry: last, ..second };
    assert(after_lines(end, five) == Some(end));
    assert(after_lines(fifth, four) == after_lines(end, five));
    assert(after_lines(fourth, three) == after_lines(fifth, four));
    assert(after_lines(third, two) == after_lines(fourth, three));
    assert(after_lines(second, one) == after_lines(third, two));
    assert(after_lines(first, lines) == after_lines(second, one));
}

} // verus!
