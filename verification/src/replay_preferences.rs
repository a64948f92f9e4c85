//! Saved replay preferences and their text format.
use crate::paths;
use crate::replay_settings::ReplayDuration;
use crate::text;
use vstd::prelude::*;
use vstd::string::*;

verus! {

broadcast use vstd::string::group_string_axioms;

pub const PREFERENCES_FILE: &'static str = "replay-preferences-v1.txt";

pub const PREFERENCES_HEADER_V1: &'static str = "redunar-replay-preferences-v1";

pub const PREFERENCES_HEADER_V2: &'static str = "redunar-replay-preferences-v2";

pub const PREFERENCES_HEADER_V3: &'static str = "redunar-replay-preferences-v3";

pub const PREFERENCES_HEADER_V4: &'static str = "redunar-replay-preferences-v4";

pub const PREFERENCES_HEADER_V5: &'static str = "redunar-replay-preferences-v5";

pub const PREFERENCES_HEADER_V6: &'static str = "redunar-replay-preferences-v6";

pub const DEFAULT_SHORTCUT: &'static str = "F8";

pub const DEFAULT_OVERLAY_SHORTCUT: &'static str = "Shift+Tab";

pub const REPLAY_DIRECTORY_NAME: &'static str = "Redunar Replays";

pub const MAX_PREFERENCES_BYTES: u64 = 8_192;

pub const MAX_PATH_BYTES: usize = 4_096;

pub const MAX_SHORTCUT_BYTES: usize = 64;

pub const MAX_REPLAY_SHORTCUTS: usize = 8;

/// One save shortcut and the length of the replay that it saves.
#[derive(Clone, Debug, PartialEq, Eq)]
pub struct ReplayShortcutBinding {
    pub shortcut: String,
    pub duration: ReplayDuration,
}

/// What a [`ReplayShortcutBinding`] holds.
#[verifier::ext_equal]
pub ghost struct BindingView {
    pub shortcut: Seq<char>,
    pub duration: ReplayDuration,
}

impl View for ReplayShortcutBinding {
    type V = BindingView;

    open spec fn view(&self) -> BindingView {
        BindingView { shortcut: self.shortcut@, duration: self.duration }
    }
}

/// What a list of bindings holds.
pub open spec fn binding_views(bindings: Seq<ReplayShortcutBinding>) -> Seq<BindingView> {
    bindings.map_values(|binding: ReplayShortcutBinding| binding@)
}

/// Container formats of saved clips.
#[derive(Clone, Copy, Debug, PartialEq, Eq, Structural)]
pub enum ReplayOutputFormat {
    Matroska,
    Mp4,
}

/// The file extension and the stored token of a format.
pub open spec fn format_token(format: ReplayOutputFormat) -> Seq<char> {
    match format {
        ReplayOutputFormat::Matroska => "mkv"@,
        ReplayOutputFormat::Mp4 => "mp4"@,
    }
}

impl ReplayOutputFormat {
    pub fn extension(self) -> (result: &'static str)
        ensures
            result@ == format_token(self),
    {
        match self {
            ReplayOutputFormat::Matroska => "mkv",
            ReplayOutputFormat::Mp4 => "mp4",
        }
    }
}

impl Default for ReplayOutputFormat {
    fn default() -> (result: Self)
        ensures
            result == ReplayOutputFormat::Matroska,
    {
        ReplayOutputFormat::Matroska
    }
}

/// Replay behavior that is not part of a game profile or encoder budget.
///
/// The save parent is an optional directory that the user selected: Redunar
/// owns only its fixed child directory there.
#[derive(Clone, Debug, PartialEq, Eq)]
pub struct ReplayPreferences {
    pub custom_save_parent: Option<Vec<u8>>,
    pub output_format: ReplayOutputFormat,
    pub overlay_shortcut: String,
    pub close_overlay_on_outside_click: bool,
    pub initial_save_duration: ReplayDuration,
    pub save_shortcuts: Vec<ReplayShortcutBinding>,
}

/// What [`ReplayPreferences`] hold.
#[verifier::ext_equal]
pub ghost struct PreferencesView {
    pub custom_save_parent: Option<Seq<u8>>,
    pub output_format: ReplayOutputFormat,
    pub overlay_shortcut: Seq<char>,
    pub close_overlay_on_outside_click: bool,
    pub initial_save_duration: ReplayDuration,
    pub save_shortcuts: Seq<BindingView>,
}

/// What an optional path holds.
pub open spec fn path_view(path: Option<Vec<u8>>) -> Option<Seq<u8>> {
    match path {
        Some(bytes) => Some(bytes@),
        None => None,
    }
}

impl View for ReplayPreferences {
    type V = PreferencesView;

    open spec fn view(&self) -> PreferencesView {
        PreferencesView {
            custom_save_parent: path_view(self.custom_save_parent),
            output_format: self.output_format,
            overlay_shortcut: self.overlay_shortcut@,
            close_overlay_on_outside_click: self.close_overlay_on_outside_click,
            initial_save_duration: self.initial_save_duration,
            save_shortcuts: binding_views(self.save_shortcuts@),
        }
    }
}

/// The preferences of a fresh installation.
pub open spec fn default_preferences() -> PreferencesView {
    PreferencesView {
        custom_save_parent: None,
        output_format: ReplayOutputFormat::Matroska,
        overlay_shortcut: DEFAULT_OVERLAY_SHORTCUT@,
        close_overlay_on_outside_click: true,
        initial_save_duration: ReplayDuration::Seconds30,
        save_shortcuts: seq![
            BindingView { shortcut: DEFAULT_SHORTCUT@, duration: ReplayDuration::Seconds30 },
        ],
    }
}

impl Default for ReplayPreferences {
    fn default() -> (result: Self)
        ensures
            result@ == default_preferences(),
    {
        let mut save_shortcuts: Vec<ReplayShortcutBinding> = Vec::new();
        save_shortcuts.push(
            ReplayShortcutBinding {
                shortcut: DEFAULT_SHORTCUT.to_owned(),
                duration: ReplayDuration::Seconds30,
            },
        );
        let result = ReplayPreferences {
            custom_save_parent: None,
            output_format: ReplayOutputFormat::Matroska,
            overlay_shortcut: DEFAULT_OVERLAY_SHORTCUT.to_owned(),
            close_overlay_on_outside_click: true,
            initial_save_duration: ReplayDuration::Seconds30,
            save_shortcuts,
        };
        assert(result@.save_shortcuts =~= default_preferences().save_shortcuts);
        result
    }
}

/// Where clips are saved.
pub open spec fn save_directory(
    preferences: PreferencesView,
    home: Option<Seq<u8>>,
    state_directory: Seq<u8>,
) -> Seq<u8> {
    match preferences.custom_save_parent {
        Some(parent) => paths::joined(parent, REPLAY_DIRECTORY_NAME.spec_bytes()),
        None => match home {
            Some(home) if paths::absolute(home) => paths::joined(
                paths::joined(home, "Videos".spec_bytes()),
                REPLAY_DIRECTORY_NAME.spec_bytes(),
            ),
            _ => paths::joined(state_directory, "replays-v1".spec_bytes()),
        },
    }
}

impl ReplayPreferences {
    /// The directory that Redunar owns for saved clips.
    pub fn resolved_directory(&self, home: Option<&[u8]>, state_directory: &[u8]) -> (result: Vec<u8>)
        ensures
            result@ == save_directory(
                self@,
                match home {
                    Some(home) => Some(home@),
                    None => None,
                },
                state_directory@,
            ),
    {
        if let Some(parent) = &self.custom_save_parent {
            return paths::join(parent.as_slice(), REPLAY_DIRECTORY_NAME.as_bytes());
        }
        match home {
            Some(path) if paths::is_absolute(path) => {
                let videos = paths::join(path, "Videos".as_bytes());
                paths::join(videos.as_slice(), REPLAY_DIRECTORY_NAME.as_bytes())
            },
            _ => paths::join(state_directory, "replays-v1".as_bytes()),
        }
    }
}

/// A preferences failure with a user-facing explanation.
#[derive(Clone, Debug, PartialEq, Eq)]
pub struct ReplayPreferencesError {
    message: String,
}

impl View for ReplayPreferencesError {
    type V = Seq<char>;

    closed spec fn view(&self) -> Seq<char> {
        self.message@
    }
}

impl ReplayPreferencesError {
    pub fn new(message: &str) -> (result: Self)
        ensures
            result@ == message@,
    {
        ReplayPreferencesError { message: message.to_owned() }
    }

    /// The user-facing explanation.
    pub fn message(&self) -> (result: &str)
        ensures
            result@ == self@,
    {
        self.message.as_str()
    }
}

/// The explanation for stored preferences at `path` that cannot be used.
pub fn load_error(path: &str, reason: &str) -> (result: ReplayPreferencesError)
    ensures
        result@ == "could not load Replay preferences from "@ + path@ + ": "@ + reason@,
{
    let mut message = "could not load Replay preferences from ".to_owned();
    message.append(path);
    message.append(": ");
    message.append(reason);
    ReplayPreferencesError::new(message.as_str())
}

/// Whether stored preferences may be read at all, by the file's own metadata.
pub fn check_stored_file(regular: bool, bytes: u64) -> (result: Result<(), &'static str>)
    ensures
        match result {
            Ok(()) => regular && bytes <= MAX_PREFERENCES_BYTES,
            Err(reason) => if !regular {
                reason@ == "state is not a regular file"@
            } else {
                bytes > MAX_PREFERENCES_BYTES && reason@ == "state is too large"@
            },
        },
{
    if !regular {
        return Err("state is not a regular file");
    }
    if bytes > MAX_PREFERENCES_BYTES {
        return Err("state is too large");
    }
    Ok(())
}

/// Whether a directory may be the save parent.
pub open spec fn valid_parent(parent: Seq<u8>) -> bool {
    paths::absolute(parent) && parent.len() <= MAX_PATH_BYTES
}

pub fn validate_parent(parent: &[u8]) -> (result: Result<(), ReplayPreferencesError>)
    ensures
        match result {
            Ok(()) => valid_parent(parent@),
            Err(error) => !valid_parent(parent@) && error@
                == "replay save parent must be an absolute path within the supported length"@,
        },
{
    if !paths::is_absolute(parent) || parent.len() > MAX_PATH_BYTES {
        return Err(
            ReplayPreferencesError::new(
                "replay save parent must be an absolute path within the supported length",
            ),
        );
    }
    Ok(())
}

/// Whether a text may be a shortcut: 1 to 64 printable ASCII characters.
pub open spec fn valid_shortcut(shortcut: Seq<char>) -> bool {
    &&& 0 < shortcut.len() <= MAX_SHORTCUT_BYTES
    &&& forall|i: int| 0 <= i < shortcut.len() ==> ' ' <= #[trigger] shortcut[i] <= '~'
}

pub fn validate_shortcut(shortcut: &str) -> (result: Result<(), ReplayPreferencesError>)
    ensures
        match result {
            Ok(()) => valid_shortcut(shortcut@),
            Err(error) => !valid_shortcut(shortcut@) && error@
                == "replay shortcut must be 1–64 printable ASCII characters"@,
        },
{
    let chars = text::chars_of(shortcut);
    let mut valid = chars.len() > 0 && chars.len() <= MAX_SHORTCUT_BYTES;
    let mut index: usize = 0;
    while index < chars.len()
        invariant
            index <= chars@.len(),
            chars@ == shortcut@,
            valid ==> 0 < chars@.len() <= MAX_SHORTCUT_BYTES && forall|i: int|
                0 <= i < index ==> ' ' <= #[trigger] chars@[i] <= '~',
            !valid ==> !valid_shortcut(shortcut@),
        decreases chars@.len() - index,
    {
        if !(' ' <= chars[index] && chars[index] <= '~') {
            valid = false;
            assert(!(' ' <= shortcut@[index as int] <= '~'));
        }
        index = index + 1;
    }
    if valid {
        Ok(())
    } else {
        Err(ReplayPreferencesError::new("replay shortcut must be 1–64 printable ASCII characters"))
    }
}

/// The first fault among the first `count` bindings.
pub open spec fn binding_fault(bindings: Seq<BindingView>, count: int) -> Option<Seq<char>>
    decreases count,
{
    if count <= 0 {
        None
    } else {
        match binding_fault(bindings, count - 1) {
            Some(fault) => Some(fault),
            None => {
                let shortcut = bindings[count - 1].shortcut;
                if !valid_shortcut(shortcut) {
                    Some("replay shortcut must be 1–64 printable ASCII characters"@)
                } else if exists|i: int| 0 <= i < count - 1 && #[trigger] bindings[i].shortcut == shortcut {
                    Some("Replay save shortcuts must be unique"@)
                } else {
                    None
                }
            },
        }
    }
}

/// The first fault in a list of save shortcuts.
pub open spec fn shortcuts_fault(bindings: Seq<BindingView>) -> Option<Seq<char>> {
    if bindings.len() > MAX_REPLAY_SHORTCUTS {
        Some("Replay supports up to eight save shortcuts"@)
    } else {
        binding_fault(bindings, bindings.len() as int)
    }
}

/// The first fault in an overlay shortcut and a list of save shortcuts.
pub open spec fn hotkeys_fault(overlay: Seq<char>, bindings: Seq<BindingView>) -> Option<Seq<char>> {
    if overlay.len() > 0 && !valid_shortcut(overlay) {
        Some("replay shortcut must be 1–64 printable ASCII characters"@)
    } else {
        match shortcuts_fault(bindings) {
            Some(fault) => Some(fault),
            None => if exists|i: int|
                0 <= i < bindings.len() && #[trigger] bindings[i].shortcut == overlay {
                Some("Replay overlay and save shortcuts must be unique"@)
            } else {
                None
            },
        }
    }
}

/// Whether a validation reported exactly the fault there is.
pub open spec fn reports(
    result: Result<(), ReplayPreferencesError>,
    fault: Option<Seq<char>>,
) -> bool {
    match result {
        Ok(()) => fault is None,
        Err(error) => fault == Some(error@),
    }
}

proof fn lemma_fault_stays(bindings: Seq<BindingView>, early: int, late: int)
    requires
        0 <= early <= late,
        binding_fault(bindings, early) is Some,
    ensures
        binding_fault(bindings, late) == binding_fault(bindings, early),
    decreases late,
{
    if early < late {
        lemma_fault_stays(bindings, early, late - 1);
    }
}

pub fn validate_shortcuts(bindings: &[ReplayShortcutBinding]) -> (result: Result<
    (),
    ReplayPreferencesError,
>)
    ensures
        reports(result, shortcuts_fault(binding_views(bindings@))),
{
    if bindings.len() > MAX_REPLAY_SHORTCUTS {
        return Err(ReplayPreferencesError::new("Replay supports up to eight save shortcuts"));
    }
    let ghost all = binding_views(bindings@);
    let mut index: usize = 0;
    while index < bindings.len()
        invariant
            index <= bindings@.len() <= MAX_REPLAY_SHORTCUTS,
            all == binding_views(bindings@),
            binding_fault(all, index as int) is None,
        decreases bindings@.len() - index,
    {
        let shortcut = bindings[index].shortcut.as_str();
        assert(all[index as int].shortcut == shortcut@);
        if let Err(error) = validate_shortcut(shortcut) {
            proof {
                lemma_fault_stays(all, index + 1, all.len() as int);
            }
            return Err(error);
        }
        let mut other: usize = 0;
        while other < index
            invariant
                other <= index < bindings@.len() <= MAX_REPLAY_SHORTCUTS,
                all == binding_views(bindings@),
                binding_fault(all, index as int) is None,
                all[index as int].shortcut == shortcut@,
                valid_shortcut(shortcut@),
                forall|i: int| 0 <= i < other ==> #[trigger] all[i].shortcut != shortcut@,
            decreases index - other,
        {
            if text::same_text(bindings[other].shortcut.as_str(), shortcut) {
                proof {
                    assert(all[other as int].shortcut == shortcut@);
                    lemma_fault_stays(all, index + 1, all.len() as int);
                }
                return Err(ReplayPreferencesError::new("Replay save shortcuts must be unique"));
            }
            assert(all[other as int].shortcut != shortcut@);
            other = other + 1;
        }
        index = index + 1;
    }
    Ok(())
}

pub fn validate_hotkeys(overlay_shortcut: &str, bindings: &[ReplayShortcutBinding]) -> (result:
    Result<(), ReplayPreferencesError>)
    ensures
        reports(result, hotkeys_fault(overlay_shortcut@, binding_views(bindings@))),
{
    if !overlay_shortcut.is_empty() {
        if let Err(error) = validate_shortcut(overlay_shortcut) {
            return Err(error);
        }
    }
    if let Err(error) = validate_shortcuts(bindings) {
        return Err(error);
    }
    let ghost all = binding_views(bindings@);
    let mut index: usize = 0;
    while index < bindings.len()
        invariant
            index <= bindings@.len(),
            all == binding_views(bindings@),
            overlay_shortcut@.len() == 0 || valid_shortcut(overlay_shortcut@),
            shortcuts_fault(all) is None,
            forall|i: int| 0 <= i < index ==> #[trigger] all[i].shortcut != overlay_shortcut@,
        decreases bindings@.len() - index,
    {
        if text::same_text(bindings[index].shortcut.as_str(), overlay_shortcut) {
            assert(all[index as int].shortcut == overlay_shortcut@);
            return Err(
                ReplayPreferencesError::new("Replay overlay and save shortcuts must be unique"),
            );
        }
        assert(all[index as int].shortcut != overlay_shortcut@);
        index = index + 1;
    }
    Ok(())
}

/// The value of a lower-case hexadecimal digit.
pub open spec fn digit_value(character: char) -> Option<nat> {
    if '0' <= character <= '9' {
        Some((character as nat - '0' as nat) as nat)
    } else if 'a' <= character <= 'f' {
        Some((character as nat - 'a' as nat + 10) as nat)
    } else {
        None
    }
}

/// The bytes that a nonempty hexadecimal text stands for.
pub open spec fn unhex_text(text: Seq<char>) -> Option<Seq<u8>> {
    if text.len() > 0 && text.len() % 2 == 0 && forall|i: int|
        0 <= i < text.len() ==> digit_value(#[trigger] text[i]) is Some {
        Some(
            Seq::new(
                text.len() / 2,
                |i: int|
                    (digit_value(text[2 * i])->0 * 16 + digit_value(text[2 * i + 1])->0) as u8,
            ),
        )
    } else {
        None
    }
}

/// The value of one hexadecimal digit.
pub fn digit(character: char) -> (result: Option<u8>)
    ensures
        match result {
            Some(value) => digit_value(character) == Some(value as nat) && value < 16,
            None => digit_value(character) is None,
        },
{
    if '0' <= character && character <= '9' {
        Some(character as u8 - 48)
    } else if 'a' <= character && character <= 'f' {
        Some(character as u8 - 87)
    } else {
        None
    }
}

/// Reads hexadecimal digits as bytes.
pub fn unhex(chars: &[char]) -> (result: Result<Vec<u8>, &'static str>)
    ensures
        match result {
            Ok(bytes) => unhex_text(chars@) == Some(bytes@),
            Err(reason) => unhex_text(chars@) is None && reason@
                == "save parent encoding is invalid"@,
        },
{
    if chars.len() == 0 || chars.len() % 2 != 0 {
        return Err("save parent encoding is invalid");
    }
    let mut bytes: Vec<u8> = Vec::new();
    let mut index: usize = 0;
    while index < chars.len()
        invariant
            index <= chars@.len(),
            index % 2 == 0,
            chars@.len() % 2 == 0,
            chars@.len() > 0,
            bytes@.len() * 2 == index,
            forall|i: int| 0 <= i < index ==> digit_value(#[trigger] chars@[i]) is Some,
            forall|i: int|
                0 <= i < bytes@.len() ==> #[trigger] bytes@[i] == (digit_value(chars@[2 * i])->0
                    * 16 + digit_value(chars@[2 * i + 1])->0) as u8,
        decreases chars@.len() - index,
    {
        match (digit(chars[index]), digit(chars[index + 1])) {
            (Some(high), Some(low)) => {
                bytes.push(high * 16 + low);
            },
            _ => {
                assert(digit_value(chars@[index as int]) is None || digit_value(
                    chars@[index + 1],
                ) is None);
                return Err("save parent encoding is invalid");
            },
        }
        index = index + 2;
    }
    assert(bytes@ =~= unhex_text(chars@)->0);
    Ok(bytes)
}

/// Reading the digits of a nonempty byte string gives the bytes back.
pub proof fn hex_round_trip(bytes: Seq<u8>)
    requires
        bytes.len() > 0,
    ensures
        unhex_text(text::hex_text(bytes)) == Some(bytes),
{
    let text = text::hex_text(bytes);
    assert forall|i: int| 0 <= i < text.len() implies digit_value(#[trigger] text[i]) == Some(
        if i % 2 == 0 {
            bytes[i / 2] as nat / 16
        } else {
            bytes[i / 2] as nat % 16
        },
    ) by {}
    assert forall|i: int| 0 <= i < bytes.len() implies (digit_value(text[2 * i])->0 * 16
        + digit_value(text[2 * i + 1])->0) as u8 == #[trigger] bytes[i] by {
        assert((2 * i) / 2 == i && (2 * i + 1) / 2 == i);
    }
    assert(unhex_text(text)->0 =~= bytes);
}

/// The stored token of a duration.
pub open spec fn token_of(duration: ReplayDuration) -> Seq<char> {
    match duration {
        ReplayDuration::Seconds15 => "15"@,
        ReplayDuration::Seconds30 => "30"@,
        ReplayDuration::Seconds60 => "60"@,
        ReplayDuration::Seconds120 => "120"@,
        ReplayDuration::Seconds180 => "180"@,
        ReplayDuration::Seconds300 => "300"@,
        ReplayDuration::Seconds600 => "600"@,
        ReplayDuration::Seconds900 => "900"@,
    }
}

pub fn duration_token(duration: ReplayDuration) -> (result: &'static str)
    ensures
        result@ == token_of(duration),
{
    match duration {
        ReplayDuration::Seconds15 => "15",
        ReplayDuration::Seconds30 => "30",
        ReplayDuration::Seconds60 => "60",
        ReplayDuration::Seconds120 => "120",
        ReplayDuration::Seconds180 => "180",
        ReplayDuration::Seconds300 => "300",
        ReplayDuration::Seconds600 => "600",
        ReplayDuration::Seconds900 => "900",
    }
}

proof fn lemma_tokens_differ()
    ensures
        forall|a: ReplayDuration, b: ReplayDuration|
            #[trigger] token_of(a) == #[trigger] token_of(b) ==> a == b,
{
    reveal_strlit("15");
    reveal_strlit("30");
    reveal_strlit("60");
    reveal_strlit("120");
    reveal_strlit("180");
    reveal_strlit("300");
    reveal_strlit("600");
    reveal_strlit("900");
    assert forall|a: ReplayDuration, b: ReplayDuration|
        #[trigger] token_of(a) == #[trigger] token_of(b) implies a == b by {
        assert(token_of(a).len() == token_of(b).len());
        assert(token_of(a)[0] == token_of(b)[0]);
        assert(token_of(a)[1] == token_of(b)[1]);
    }
}

/// Reads a duration token.
pub fn parse_duration_token(value: &[char]) -> (result: Result<ReplayDuration, &'static str>)
    ensures
        match result {
            Ok(duration) => value@ == token_of(duration),
            Err(reason) => reason@ == "shortcut duration is invalid"@ && forall|duration: ReplayDuration|
                value@ != #[trigger] token_of(duration),
        },
{
    if text::spells(value, "15") {
        Ok(ReplayDuration::Seconds15)
    } else if text::spells(value, "30") {
        Ok(ReplayDuration::Seconds30)
    } else if text::spells(value, "60") {
        Ok(ReplayDuration::Seconds60)
    } else if text::spells(value, "120") {
        Ok(ReplayDuration::Seconds120)
    } else if text::spells(value, "180") {
        Ok(ReplayDuration::Seconds180)
    } else if text::spells(value, "300") {
        Ok(ReplayDuration::Seconds300)
    } else if text::spells(value, "600") {
        Ok(ReplayDuration::Seconds600)
    } else if text::spells(value, "900") {
        Ok(ReplayDuration::Seconds900)
    } else {
        assert forall|duration: ReplayDuration| value@ != #[trigger] token_of(duration) by {
            match duration {
                ReplayDuration::Seconds15 => {},
                ReplayDuration::Seconds30 => {},
                ReplayDuration::Seconds60 => {},
                ReplayDuration::Seconds120 => {},
                ReplayDuration::Seconds180 => {},
                ReplayDuration::Seconds300 => {},
                ReplayDuration::Seconds600 => {},
                ReplayDuration::Seconds900 => {},
            }
        }
        Err("shortcut duration is invalid")
    }
}

/// The duration of a token, or the reason there is none.
pub open spec fn duration_named(value: Seq<char>) -> Result<ReplayDuration, Seq<char>> {
    if exists|duration: ReplayDuration| value == #[trigger] token_of(duration) {
        Ok(choose|duration: ReplayDuration| value == #[trigger] token_of(duration))
    } else {
        Err("shortcut duration is invalid"@)
    }
}

proof fn lemma_duration_named(duration: ReplayDuration)
    ensures
        duration_named(token_of(duration)) == Ok::<ReplayDuration, Seq<char>>(duration),
{
    lemma_tokens_differ();
}

/// The stored token of a switch.
pub open spec fn bool_token(value: bool) -> Seq<char> {
    if value {
        "true"@
    } else {
        "false"@
    }
}

/// The switch of a token, or the reason there is none.
pub open spec fn bool_named(value: Seq<char>) -> Result<bool, Seq<char>> {
    if value == "true"@ {
        Ok(true)
    } else if value == "false"@ {
        Ok(false)
    } else {
        Err("Replay overlay behavior is invalid"@)
    }
}

/// Reads a switch.
pub fn parse_bool(value: &[char]) -> (result: Result<bool, &'static str>)
    ensures
        match result {
            Ok(switch) => bool_named(value@) == Ok::<bool, Seq<char>>(switch),
            Err(reason) => bool_named(value@) == Err::<bool, Seq<char>>(reason@),
        },
{
    if text::spells(value, "true") {
        Ok(true)
    } else if text::spells(value, "false") {
        Ok(false)
    } else {
        Err("Replay overlay behavior is invalid")
    }
}

/// The format of a token, or the reason there is none.
pub open spec fn format_named(value: Seq<char>) -> Result<ReplayOutputFormat, Seq<char>> {
    if value == "mkv"@ {
        Ok(ReplayOutputFormat::Matroska)
    } else if value == "mp4"@ {
        Ok(ReplayOutputFormat::Mp4)
    } else {
        Err("Replay output format is invalid"@)
    }
}

/// Reads an output format.
pub fn parse_output_format(value: &[char]) -> (result: Result<ReplayOutputFormat, &'static str>)
    ensures
        match result {
            Ok(format) => format_named(value@) == Ok::<ReplayOutputFormat, Seq<char>>(format),
            Err(reason) => format_named(value@) == Err::<ReplayOutputFormat, Seq<char>>(reason@),
        },
{
    if text::spells(value, "mkv") {
        Ok(ReplayOutputFormat::Matroska)
    } else if text::spells(value, "mp4") {
        Ok(ReplayOutputFormat::Mp4)
    } else {
        Err("Replay output format is invalid")
    }
}

/// The value of a field line, or the reason it is not the field `name`.
pub open spec fn field_value(
    lines: Seq<Seq<char>>,
    index: int,
    name: Seq<char>,
) -> Result<Seq<char>, Seq<char>> {
    if index >= lines.len() {
        Err("preferences contain a missing field"@)
    } else {
        match text::split_at_first(lines[index], '=') {
            None => Err("preferences contain a missing field"@),
            Some((found, value)) => if found == name {
                Ok(value)
            } else {
                Err("preferences contain missing or reordered fields"@)
            },
        }
    }
}

/// Reads one field line.
pub fn field(lines: &[Vec<char>], index: usize, expected: &str) -> (result: Result<
    Vec<char>,
    &'static str,
>)
    ensures
        match result {
            Ok(value) => field_value(text::views(lines@), index as int, expected@) == Ok::<
                Seq<char>,
                Seq<char>,
            >(value@),
            Err(reason) => field_value(text::views(lines@), index as int, expected@) == Err::<
                Seq<char>,
                Seq<char>,
            >(reason@),
        },
{
    if index >= lines.len() {
        return Err("preferences contain a missing field");
    }
    assert(text::views(lines@)[index as int] == lines@[index as int]@);
    match text::split_once(lines[index].as_slice(), '=') {
        None => Err("preferences contain a missing field"),
        Some((name, value)) => if text::spells(name.as_slice(), expected) {
            Ok(value)
        } else {
            Err("preferences contain missing or reordered fields")
        },
    }
}

/// The format version that a header line names.
pub open spec fn version_of(line: Seq<char>) -> Option<int> {
    if line == PREFERENCES_HEADER_V1@ {
        Some(1int)
    } else if line == PREFERENCES_HEADER_V2@ {
        Some(2int)
    } else if line == PREFERENCES_HEADER_V3@ {
        Some(3int)
    } else if line == PREFERENCES_HEADER_V4@ {
        Some(4int)
    } else if line == PREFERENCES_HEADER_V5@ {
        Some(5int)
    } else if line == PREFERENCES_HEADER_V6@ {
        Some(6int)
    } else {
        None
    }
}

fn version(line: &[char]) -> (result: Option<u8>)
    ensures
        match result {
            Some(number) => version_of(line@) == Some(number as int) && 1 <= number <= 6,
            None => version_of(line@) is None,
        },
{
    if text::spells(line, PREFERENCES_HEADER_V1) {
        Some(1)
    } else if text::spells(line, PREFERENCES_HEADER_V2) {
        Some(2)
    } else if text::spells(line, PREFERENCES_HEADER_V3) {
        Some(3)
    } else if text::spells(line, PREFERENCES_HEADER_V4) {
        Some(4)
    } else if text::spells(line, PREFERENCES_HEADER_V5) {
        Some(5)
    } else if text::spells(line, PREFERENCES_HEADER_V6) {
        Some(6)
    } else {
        None
    }
}

/// The save parent that a stored value stands for.
pub open spec fn stored_parent(value: Seq<char>) -> Result<Option<Seq<u8>>, Seq<char>> {
    if value == "default"@ {
        Ok(None)
    } else {
        match unhex_text(value) {
            None => Err("save parent encoding is invalid"@),
            Some(bytes) => if bytes.len() > MAX_PATH_BYTES {
                Err("save parent exceeds the supported length"@)
            } else if !paths::absolute(bytes) {
                Err("save parent is invalid"@)
            } else {
                Ok(Some(bytes))
            },
        }
    }
}

fn parse_parent(value: &[char]) -> (result: Result<Option<Vec<u8>>, &'static str>)
    ensures
        match result {
            Ok(parent) => stored_parent(value@) == Ok::<Option<Seq<u8>>, Seq<char>>(
                path_view(parent),
            ),
            Err(reason) => stored_parent(value@) == Err::<Option<Seq<u8>>, Seq<char>>(reason@),
        },
{
    if text::spells(value, "default") {
        return Ok(None);
    }
    match unhex(value) {
        Err(reason) => Err(reason),
        Ok(bytes) => {
            if bytes.len() > MAX_PATH_BYTES {
                return Err("save parent exceeds the supported length");
            }
            match validate_parent(bytes.as_slice()) {
                Err(_) => Err("save parent is invalid"),
                Ok(()) => Ok(Some(bytes)),
            }
        },
    }
}

/// The binding on one line.
pub open spec fn stored_binding(lines: Seq<Seq<char>>, index: int) -> Result<
    BindingView,
    Seq<char>,
> {
    match field_value(lines, index, "binding"@) {
        Err(reason) => Err(reason),
        Ok(value) => match text::split_at_first(value, ':') {
            None => Err("shortcut binding is invalid"@),
            Some((duration, shortcut)) => match duration_named(duration) {
                Err(reason) => Err(reason),
                Ok(duration) => Ok(BindingView { shortcut, duration }),
            },
        },
    }
}

/// The bindings on `count` lines from `start`.
pub open spec fn stored_list(lines: Seq<Seq<char>>, start: int, count: int) -> Result<
    Seq<BindingView>,
    Seq<char>,
>
    decreases count,
{
    if count <= 0 {
        Ok(Seq::empty())
    } else {
        match stored_list(lines, start, count - 1) {
            Err(reason) => Err(reason),
            Ok(list) => match stored_binding(lines, start + count - 1) {
                Err(reason) => Err(reason),
                Ok(binding) => Ok(list.push(binding)),
            },
        }
    }
}

/// The save shortcuts from line `start` to the end of a document. The first
/// version holds one shortcut, later ones a counted list.
pub open spec fn stored_shortcuts(lines: Seq<Seq<char>>, version: int, start: int) -> Result<
    Seq<BindingView>,
    Seq<char>,
> {
    if version == 1 {
        match field_value(lines, start, "save-shortcut"@) {
            Err(reason) => Err(reason),
            Ok(shortcut) => if lines.len() > start + 1 {
                Err("preferences contain unknown fields"@)
            } else {
                Ok(seq![BindingView { shortcut, duration: ReplayDuration::Seconds30 }])
            },
        }
    } else {
        match field_value(lines, start, "binding-count"@) {
            Err(reason) => Err(reason),
            Ok(value) => match text::parsed_decimal(value, MAX_REPLAY_SHORTCUTS as nat) {
                None => Err("shortcut binding count is invalid"@),
                Some(count) => match stored_list(lines, start + 1, count as int) {
                    Err(reason) => Err(reason),
                    Ok(list) => if lines.len() > start + 1 + count {
                        Err("preferences contain unknown fields"@)
                    } else {
                        Ok(list)
                    },
                },
            },
        }
    }
}

proof fn lemma_list_error_stays(lines: Seq<Seq<char>>, start: int, early: int, late: int)
    requires
        0 <= early <= late,
        stored_list(lines, start, early) is Err,
    ensures
        stored_list(lines, start, late) == stored_list(lines, start, early),
    decreases late,
{
    if early < late {
        lemma_list_error_stays(lines, start, early, late - 1);
    }
}

fn parse_binding(lines: &[Vec<char>], index: usize) -> (result: Result<
    ReplayShortcutBinding,
    &'static str,
>)
    ensures
        match result {
            Ok(binding) => stored_binding(text::views(lines@), index as int) == Ok::<
                BindingView,
                Seq<char>,
            >(binding@),
            Err(reason) => stored_binding(text::views(lines@), index as int) == Err::<
                BindingView,
                Seq<char>,
            >(reason@),
        },
{
    match field(lines, index, "binding") {
        Err(reason) => Err(reason),
        Ok(value) => match text::split_once(value.as_slice(), ':') {
            None => Err("shortcut binding is invalid"),
            Some((duration, shortcut)) => match parse_duration_token(duration.as_slice()) {
                Err(reason) => Err(reason),
                Ok(length) => {
                    proof {
                        lemma_duration_named(length);
                    }
                    Ok(
                        ReplayShortcutBinding {
                            shortcut: text::string_of(shortcut.as_slice()),
                            duration: length,
                        },
                    )
                },
            },
        },
    }
}

fn parse_shortcuts(lines: &[Vec<char>], version: u8, start: usize) -> (result: Result<
    Vec<ReplayShortcutBinding>,
    &'static str,
>)
    requires
        start <= 6,
    ensures
        match result {
            Ok(bindings) => stored_shortcuts(text::views(lines@), version as int, start as int)
                == Ok::<Seq<BindingView>, Seq<char>>(binding_views(bindings@)),
            Err(reason) => stored_shortcuts(text::views(lines@), version as int, start as int)
                == Err::<Seq<BindingView>, Seq<char>>(reason@),
        },
{
    let ghost all = text::views(lines@);
    let mut bindings: Vec<ReplayShortcutBinding> = Vec::new();
    if version == 1 {
        return match field(lines, start, "save-shortcut") {
            Err(reason) => Err(reason),
            Ok(shortcut) => {
                if lines.len() > start + 1 {
                    return Err("preferences contain unknown fields");
                }
                bindings.push(
                    ReplayShortcutBinding {
                        shortcut: text::string_of(shortcut.as_slice()),
                        duration: ReplayDuration::Seconds30,
                    },
                );
                assert(binding_views(bindings@) =~= seq![
                    BindingView { shortcut: shortcut@, duration: ReplayDuration::Seconds30 },
                ]);
                Ok(bindings)
            },
        };
    }
    match field(lines, start, "binding-count") {
        Err(reason) => Err(reason),
        Ok(value) => match text::parse_decimal(value.as_slice(), MAX_REPLAY_SHORTCUTS as u64) {
            None => Err("shortcut binding count is invalid"),
            Some(count) => {
                let mut index: u64 = 0;
                assert(binding_views(bindings@) =~= Seq::<BindingView>::empty());
                while index < count
                    invariant
                        index <= count <= MAX_REPLAY_SHORTCUTS,
                        start <= 6,
                        version != 1,
                        all == text::views(lines@),
                        field_value(all, start as int, "binding-count"@) == Ok::<
                            Seq<char>,
                            Seq<char>,
                        >(value@),
                        text::parsed_decimal(value@, MAX_REPLAY_SHORTCUTS as nat) == Some(
                            count as nat,
                        ),
                        stored_list(all, start + 1, index as int) == Ok::<
                            Seq<BindingView>,
                            Seq<char>,
                        >(binding_views(bindings@)),
                    decreases count - index,
                {
                    match parse_binding(lines, start + 1 + index as usize) {
                        Err(reason) => {
                            proof {
                                lemma_list_error_stays(all, start + 1, index + 1, count as int);
                            }
                            return Err(reason);
                        },
                        Ok(binding) => {
                            let ghost before = binding_views(bindings@);
                            bindings.push(binding);
                            assert(binding_views(bindings@) =~= before.push(binding@));
                        },
                    }
                    index = index + 1;
                }
                if lines.len() > start + 1 + count as usize {
                    return Err("preferences contain unknown fields");
                }
                Ok(bindings)
            },
        },
    }
}

/// The line on which the save shortcuts of a format version start.
pub open spec fn shortcuts_line(version: int) -> int {
    if version <= 2 {
        2
    } else {
        version
    }
}

/// A field that formats before version `since` do not have, on the line
/// before the one that `since` numbers.
pub open spec fn later_field(
    lines: Seq<Seq<char>>,
    version: int,
    since: int,
    name: Seq<char>,
) -> Option<Result<Seq<char>, Seq<char>>> {
    if version >= since {
        Some(field_value(lines, since - 1, name))
    } else {
        None
    }
}

/// The preferences that a document holds, or the reason it is refused.
pub open spec fn stored_preferences(contents: Seq<char>) -> Result<PreferencesView, Seq<char>> {
    let lines = text::lines_of(contents);
    if lines.len() == 0 {
        Err("preferences are empty"@)
    } else {
        match version_of(lines[0]) {
            None => Err("unsupported preferences version"@),
            Some(version) => stored_fields(lines, version),
        }
    }
}

/// The preferences that the lines of a document of known version hold.
pub open spec fn stored_fields(lines: Seq<Seq<char>>, version: int) -> Result<
    PreferencesView,
    Seq<char>,
> {
    let parent = match field_value(lines, 1, "save-parent"@) {
        Err(reason) => Err(reason),
        Ok(value) => stored_parent(value),
    };
    let format = match later_field(lines, version, 3, "output-format"@) {
        None => Ok(ReplayOutputFormat::Matroska),
        Some(Err(reason)) => Err(reason),
        Some(Ok(value)) => format_named(value),
    };
    let overlay = match later_field(lines, version, 4, "overlay-shortcut"@) {
        None => Ok(DEFAULT_OVERLAY_SHORTCUT@),
        Some(value) => value,
    };
    let outside_click = match later_field(lines, version, 5, "close-on-outside-click"@) {
        None => Ok(true),
        Some(Err(reason)) => Err(reason),
        Some(Ok(value)) => bool_named(value),
    };
    let duration = match later_field(lines, version, 6, "initial-save-duration"@) {
        None => Ok(ReplayDuration::Seconds30),
        Some(Err(reason)) => Err(reason),
        Some(Ok(value)) => duration_named(value),
    };
    let shortcuts = stored_shortcuts(lines, version, shortcuts_line(version));
    match (parent, format, overlay, outside_click, duration, shortcuts) {
        (Err(reason), _, _, _, _, _) => Err(reason),
        (_, Err(reason), _, _, _, _) => Err(reason),
        (_, _, Err(reason), _, _, _) => Err(reason),
        (_, _, _, Err(reason), _, _) => Err(reason),
        (_, _, _, _, Err(reason), _) => Err(reason),
        (_, _, _, _, _, Err(reason)) => Err(reason),
        (
            Ok(custom_save_parent),
            Ok(output_format),
            Ok(overlay_shortcut),
            Ok(close_overlay_on_outside_click),
            Ok(initial_save_duration),
            Ok(save_shortcuts),
        ) => if hotkeys_fault(overlay_shortcut, save_shortcuts) is Some {
            Err("Replay shortcuts are invalid"@)
        } else {
            Ok(
                PreferencesView {
                    custom_save_parent,
                    output_format,
                    overlay_shortcut,
                    close_overlay_on_outside_click,
                    initial_save_duration,
                    save_shortcuts,
                },
            )
        },
    }
}

/// Reads stored preferences of any supported version.
pub fn parse(contents: &str) -> (result: Result<ReplayPreferences, &'static str>)
    ensures
        match result {
            Ok(preferences) => stored_preferences(contents@) == Ok::<PreferencesView, Seq<char>>(
                preferences@,
            ),
            Err(reason) => stored_preferences(contents@) == Err::<PreferencesView, Seq<char>>(
                reason@,
            ),
        },
{
    let chars = text::chars_of(contents);
    let lines = text::split_lines(chars.as_slice());
    if lines.len() == 0 {
        return Err("preferences are empty");
    }
    assert(text::views(lines@)[0] == lines@[0]@);
    let number: u8 = match version(lines[0].as_slice()) {
        None => {
            return Err("unsupported preferences version");
        },
        Some(number) => number,
    };
    parse_fields(lines.as_slice(), number)
}

fn parse_fields(lines: &[Vec<char>], version: u8) -> (result: Result<
    ReplayPreferences,
    &'static str,
>)
    requires
        1 <= version <= 6,
    ensures
        match result {
            Ok(preferences) => stored_fields(text::views(lines@), version as int) == Ok::<
                PreferencesView,
                Seq<char>,
            >(preferences@),
            Err(reason) => stored_fields(text::views(lines@), version as int) == Err::<
                PreferencesView,
                Seq<char>,
            >(reason@),
        },
{
    let custom_save_parent = match field(lines, 1, "save-parent") {
        Err(reason) => {
            return Err(reason);
        },
        Ok(value) => match parse_parent(value.as_slice()) {
            Err(reason) => {
                return Err(reason);
            },
            Ok(parent) => parent,
        },
    };
    let mut output_format = ReplayOutputFormat::Matroska;
    if version >= 3 {
        match field(lines, 2, "output-format") {
            Err(reason) => {
                return Err(reason);
            },
            Ok(value) => match parse_output_format(value.as_slice()) {
                Err(reason) => {
                    return Err(reason);
                },
                Ok(format) => {
                    output_format = format;
                },
            },
        }
    }
    let mut overlay_shortcut = DEFAULT_OVERLAY_SHORTCUT.to_owned();
    if version >= 4 {
        match field(lines, 3, "overlay-shortcut") {
            Err(reason) => {
                return Err(reason);
            },
            Ok(value) => {
                overlay_shortcut = text::string_of(value.as_slice());
            },
        }
    }
    let mut close_overlay_on_outside_click = true;
    if version >= 5 {
        match field(lines, 4, "close-on-outside-click") {
            Err(reason) => {
                return Err(reason);
            },
            Ok(value) => match parse_bool(value.as_slice()) {
                Err(reason) => {
                    return Err(reason);
                },
                Ok(switch) => {
                    close_overlay_on_outside_click = switch;
                },
            },
        }
    }
    let mut initial_save_duration = ReplayDuration::Seconds30;
    if version >= 6 {
        match field(lines, 5, "initial-save-duration") {
            Err(reason) => {
                return Err(reason);
            },
            Ok(value) => match parse_duration_token(value.as_slice()) {
                Err(reason) => {
                    return Err(reason);
                },
                Ok(duration) => {
                    proof {
                        lemma_duration_named(duration);
                    }
                    initial_save_duration = duration;
                },
            },
        }
    }
    let start: usize = if version <= 2 {
        2
    } else {
        version as usize
    };
    match parse_shortcuts(lines, version, start) {
        Err(reason) => Err(reason),
        Ok(save_shortcuts) => {
            match validate_hotkeys(overlay_shortcut.as_str(), save_shortcuts.as_slice()) {
                Err(_) => Err("Replay shortcuts are invalid"),
                Ok(()) => Ok(
                    ReplayPreferences {
                        custom_save_parent,
                        output_format,
                        overlay_shortcut,
                        close_overlay_on_outside_click,
                        initial_save_duration,
                        save_shortcuts,
                    },
                ),
            }
        },
    }
}

/// A field as one line.
pub open spec fn field_line(name: Seq<char>, value: Seq<char>) -> Seq<char> {
    name + seq!['='] + value
}

/// The stored value of a save parent.
pub open spec fn parent_token(parent: Option<Seq<u8>>) -> Seq<char> {
    match parent {
        None => "default"@,
        Some(bytes) => text::hex_text(bytes),
    }
}

/// The line of one binding.
pub open spec fn binding_line(binding: BindingView) -> Seq<char> {
    field_line("binding"@, token_of(binding.duration) + seq![':'] + binding.shortcut)
}

/// The lines of the current format.
pub open spec fn document_lines(preferences: PreferencesView) -> Seq<Seq<char>> {
    seq![
        PREFERENCES_HEADER_V6@,
        field_line("save-parent"@, parent_token(preferences.custom_save_parent)),
        field_line("output-format"@, format_token(preferences.output_format)),
        field_line("overlay-shortcut"@, preferences.overlay_shortcut),
        field_line(
            "close-on-outside-click"@,
            bool_token(preferences.close_overlay_on_outside_click),
        ),
        field_line("initial-save-duration"@, token_of(preferences.initial_save_duration)),
        field_line("binding-count"@, text::decimal(preferences.save_shortcuts.len())),
    ] + preferences.save_shortcuts.map_values(|binding: BindingView| binding_line(binding))
}

fn push_field(output: &mut String, name: &str, value: &str)
    ensures
        final(output)@ == old(output)@ + field_line(name@, value@) + seq!['\n'],
{
    output.append(name);
    output.push('=');
    output.append(value);
    output.push('\n');
    assert(output@ =~= old(output)@ + field_line(name@, value@) + seq!['\n']);
}

/// Writes preferences in the current format.
pub fn serialize(preferences: &ReplayPreferences) -> (result: String)
    ensures
        result@ == text::joined_lines(document_lines(preferences@)),
{
    let ghost lines = document_lines(preferences@);
    let ghost bindings = preferences@.save_shortcuts;
    let parent = match &preferences.custom_save_parent {
        None => "default".to_owned(),
        Some(path) => text::hex(path.as_slice()),
    };
    let count = text::string_of(
        text::decimal_chars(preferences.save_shortcuts.len() as u64).as_slice(),
    );
    let mut output = String::new();
    text::push_line(&mut output, PREFERENCES_HEADER_V6);
    push_field(&mut output, "save-parent", parent.as_str());
    push_field(&mut output, "output-format", preferences.output_format.extension());
    push_field(&mut output, "overlay-shortcut", preferences.overlay_shortcut.as_str());
    push_field(
        &mut output,
        "close-on-outside-click",
        if preferences.close_overlay_on_outside_click {
            "true"
        } else {
            "false"
        },
    );
    push_field(
        &mut output,
        "initial-save-duration",
        duration_token(preferences.initial_save_duration),
    );
    push_field(&mut output, "binding-count", count.as_str());
    proof {
        let none = Seq::<Seq<char>>::empty();
        assert(text::joined_lines(none) =~= Seq::<char>::empty());
        assert(lines.take(0) =~= none);
        lemma_next_line(lines, 0);
        lemma_next_line(lines, 1);
        lemma_next_line(lines, 2);
        lemma_next_line(lines, 3);
        lemma_next_line(lines, 4);
        lemma_next_line(lines, 5);
        lemma_next_line(lines, 6);
        assert(output@ =~= text::joined_lines(lines.take(7)));
    }
    let mut index: usize = 0;
    while index < preferences.save_shortcuts.len()
        invariant
            index <= preferences.save_shortcuts@.len(),
            bindings == preferences@.save_shortcuts,
            lines == document_lines(preferences@),
            output@ == text::joined_lines(lines.take(7 + index)),
        decreases preferences.save_shortcuts@.len() - index,
    {
        let ghost before = output@;
        let binding = &preferences.save_shortcuts[index];
        output.append("binding");
        output.push('=');
        output.append(duration_token(binding.duration));
        output.push(':');
        output.append(binding.shortcut.as_str());
        output.push('\n');
        proof {
            assert(bindings[index as int] == binding@);
            assert(lines[7 + index] == binding_line(binding@));
            assert(output@ =~= before + binding_line(binding@) + seq!['\n']);
            lemma_next_line(lines, 7 + index);
        }
        index = index + 1;
    }
    assert(lines.take(7 + index) =~= lines);
    output
}

proof fn lemma_next_line(lines: Seq<Seq<char>>, index: int)
    requires
        0 <= index < lines.len(),
    ensures
        text::joined_lines(lines.take(index + 1)) == text::joined_lines(lines.take(index))
            + lines[index] + seq!['\n'],
{
    assert(lines.take(index + 1) =~= lines.take(index).push(lines[index]));
    text::lemma_joined_push(lines.take(index), lines[index]);
}

/// Whether preferences are ones that the setters and the reader produce.
pub open spec fn valid_preferences(preferences: PreferencesView) -> bool {
    &&& preferences.custom_save_parent matches Some(parent) ==> valid_parent(parent)
    &&& hotkeys_fault(preferences.overlay_shortcut, preferences.save_shortcuts) is None
}

proof fn lemma_no_fault(bindings: Seq<BindingView>, count: int, index: int)
    requires
        0 <= index < count <= bindings.len(),
        binding_fault(bindings, count) is None,
    ensures
        valid_shortcut(bindings[index].shortcut),
    decreases count,
{
    if index < count - 1 {
        lemma_no_fault(bindings, count - 1, index);
    }
}

proof fn lemma_tokens_are_plain(duration: ReplayDuration)
    ensures
        token_of(duration).len() > 0,
        forall|i: int|
            0 <= i < token_of(duration).len() ==> '0' <= #[trigger] token_of(duration)[i] <= '9',
{
    reveal_strlit("15");
    reveal_strlit("30");
    reveal_strlit("60");
    reveal_strlit("120");
    reveal_strlit("180");
    reveal_strlit("300");
    reveal_strlit("600");
    reveal_strlit("900");
}

/// A text of printable ASCII characters without the separator.
spec fn is_plain_name(name: Seq<char>) -> bool {
    forall|i: int| 0 <= i < name.len() ==> ' ' <= #[trigger] name[i] <= '~' && name[i] != '='
}

spec fn is_printable(value: Seq<char>) -> bool {
    forall|i: int| 0 <= i < value.len() ==> ' ' <= #[trigger] value[i] <= '~'
}

proof fn lemma_field_line(lines: Seq<Seq<char>>, index: int, name: Seq<char>, value: Seq<char>)
    requires
        0 <= index < lines.len(),
        lines[index] == field_line(name, value),
        is_plain_name(name),
        is_printable(value),
    ensures
        field_value(lines, index, name) == Ok::<Seq<char>, Seq<char>>(value),
        text::is_clean_line(lines[index]),
{
    text::lemma_field_splits(name, '=', value);
    let line = lines[index];
    assert forall|i: int| 0 <= i < line.len() implies ' ' <= #[trigger] line[i] <= '~' by {
        if i < name.len() {
            assert(line[i] == name[i]);
        } else if i > name.len() {
            assert(line[i] == value[i - name.len() - 1]);
        }
    }
    if line.len() > 0 {
        assert(' ' <= line[line.len() - 1]);
    }
}

proof fn lemma_names_are_plain()
    ensures
        is_plain_name("save-parent"@),
        is_plain_name("output-format"@),
        is_plain_name("overlay-shortcut"@),
        is_plain_name("close-on-outside-click"@),
        is_plain_name("initial-save-duration"@),
        is_plain_name("binding-count"@),
        is_plain_name("binding"@),
        is_plain_name(PREFERENCES_HEADER_V6@),
        version_of(PREFERENCES_HEADER_V6@) == Some(6int),
        text::is_clean_line(PREFERENCES_HEADER_V6@),
{
    reveal_strlit("save-parent");
    reveal_strlit("output-format");
    reveal_strlit("overlay-shortcut");
    reveal_strlit("close-on-outside-click");
    reveal_strlit("initial-save-duration");
    reveal_strlit("binding-count");
    reveal_strlit("binding");
    reveal_strlit("redunar-replay-preferences-v1");
    reveal_strlit("redunar-replay-preferences-v2");
    reveal_strlit("redunar-replay-preferences-v3");
    reveal_strlit("redunar-replay-preferences-v4");
    reveal_strlit("redunar-replay-preferences-v5");
    reveal_strlit("redunar-replay-preferences-v6");
    let header = PREFERENCES_HEADER_V6@;
    assert(header[28] == '6');
    assert(PREFERENCES_HEADER_V1@[28] == '1');
    assert(PREFERENCES_HEADER_V2@[28] == '2');
    assert(PREFERENCES_HEADER_V3@[28] == '3');
    assert(PREFERENCES_HEADER_V4@[28] == '4');
    assert(PREFERENCES_HEADER_V5@[28] == '5');
}

proof fn lemma_parent_reads_back(parent: Option<Seq<u8>>)
    requires
        parent matches Some(bytes) ==> valid_parent(bytes),
    ensures
        stored_parent(parent_token(parent)) == Ok::<Option<Seq<u8>>, Seq<char>>(parent),
        is_printable(parent_token(parent)),
{
    reveal_strlit("default");
    if let Some(bytes) = parent {
        hex_round_trip(bytes);
        let digits = text::hex_text(bytes);
        assert forall|i: int| 0 <= i < digits.len() implies digit_value(#[trigger] digits[i]) is Some
        by {}
        assert(digits != "default"@) by {
            if digits == "default"@ {
                assert(digits.len() == 7);
            }
        }
    }
}

proof fn lemma_binding_reads_back(lines: Seq<Seq<char>>, index: int, binding: BindingView)
    requires
        0 <= index < lines.len(),
        lines[index] == binding_line(binding),
        valid_shortcut(binding.shortcut),
    ensures
        stored_binding(lines, index) == Ok::<BindingView, Seq<char>>(binding),
        text::is_clean_line(lines[index]),
{
    lemma_names_are_plain();
    lemma_tokens_are_plain(binding.duration);
    let token = token_of(binding.duration);
    let value = token + seq![':'] + binding.shortcut;
    assert forall|i: int| 0 <= i < value.len() implies ' ' <= #[trigger] value[i] <= '~' by {
        if i < token.len() {
            assert(value[i] == token[i]);
        } else if i > token.len() {
            assert(value[i] == binding.shortcut[i - token.len() - 1]);
        }
    }
    lemma_field_line(lines, index, "binding"@, value);
    text::lemma_field_splits(token, ':', binding.shortcut);
    lemma_duration_named(binding.duration);
}

proof fn lemma_list_reads_back(lines: Seq<Seq<char>>, bindings: Seq<BindingView>, count: int)
    requires
        0 <= count <= bindings.len(),
        lines.len() == 7 + bindings.len(),
        forall|i: int| 0 <= i < bindings.len() ==> lines[7 + i] == binding_line(#[trigger] bindings[i]),
        forall|i: int| 0 <= i < bindings.len() ==> valid_shortcut((#[trigger] bindings[i]).shortcut),
    ensures
        stored_list(lines, 7, count) == Ok::<Seq<BindingView>, Seq<char>>(bindings.take(count)),
    decreases count,
{
    if count > 0 {
        lemma_list_reads_back(lines, bindings, count - 1);
        assert(valid_shortcut(bindings[count - 1].shortcut));
        lemma_binding_reads_back(lines, 7 + count - 1, bindings[count - 1]);
        assert(bindings.take(count - 1).push(bindings[count - 1]) =~= bindings.take(count));
    } else {
        assert(bindings.take(0) =~= Seq::<BindingView>::empty());
    }
}

proof fn lemma_tokens_are_printable(preferences: PreferencesView)
    ensures
        is_printable(format_token(preferences.output_format)),
        is_printable(bool_token(preferences.close_overlay_on_outside_click)),
        is_printable(text::decimal(preferences.save_shortcuts.len())),
{
    reveal_strlit("mkv");
    reveal_strlit("mp4");
    reveal_strlit("true");
    reveal_strlit("false");
    let digits = text::decimal(preferences.save_shortcuts.len());
    text::decimal_round_trip(preferences.save_shortcuts.len());
    assert forall|i: int| 0 <= i < digits.len() implies ' ' <= #[trigger] digits[i] <= '~' by {
        assert(text::is_digit(digits[i]));
    }
}

/// The field lines of a document before its bindings read back.
#[verifier::rlimit(40)]
#[verifier::spinoff_prover]
#[verifier::rlimit(80)]
proof fn lemma_fixed_fields(preferences: PreferencesView)
    requires
        valid_preferences(preferences),
    ensures
        ({
            let lines = document_lines(preferences);
            &&& version_of(lines[0]) == Some(6int)
            &&& field_value(lines, 1, "save-parent"@) == Ok::<Seq<char>, Seq<char>>(
                parent_token(preferences.custom_save_parent),
            )
            &&& field_value(lines, 2, "output-format"@) == Ok::<Seq<char>, Seq<char>>(
                format_token(preferences.output_format),
            )
            &&& field_value(lines, 3, "overlay-shortcut"@) == Ok::<Seq<char>, Seq<char>>(
                preferences.overlay_shortcut,
            )
            &&& field_value(lines, 4, "close-on-outside-click"@) == Ok::<Seq<char>, Seq<char>>(
                bool_token(preferences.close_overlay_on_outside_click),
            )
            &&& field_value(lines, 5, "initial-save-duration"@) == Ok::<Seq<char>, Seq<char>>(
                token_of(preferences.initial_save_duration),
            )
            &&& field_value(lines, 6, "binding-count"@) == Ok::<Seq<char>, Seq<char>>(
                text::decimal(preferences.save_shortcuts.len()),
            )
            &&& forall|i: int| 0 <= i < 7 ==> text::is_clean_line(#[trigger] lines[i])
        }),
{
    let lines = document_lines(preferences);
    lemma_names_are_plain();
    lemma_parent_reads_back(preferences.custom_save_parent);
    lemma_field_line(lines, 1, "save-parent"@, parent_token(preferences.custom_save_parent));
    lemma_tokens_are_printable(preferences);
    lemma_field_line(lines, 2, "output-format"@, format_token(preferences.output_format));
    lemma_field_line(lines, 3, "overlay-shortcut"@, preferences.overlay_shortcut);
    lemma_field_line(
        lines,
        4,
        "close-on-outside-click"@,
        bool_token(preferences.close_overlay_on_outside_click),
    );
    lemma_tokens_are_plain(preferences.initial_save_duration);
    lemma_field_line(
        lines,
        5,
        "initial-save-duration"@,
        token_of(preferences.initial_save_duration),
    );
    lemma_field_line(
        lines,
        6,
        "binding-count"@,
        text::decimal(preferences.save_shortcuts.len()),
    );
    assert(lines[0] == PREFERENCES_HEADER_V6@);
}

/// The bindings of a document read back.
proof fn lemma_bindings(preferences: PreferencesView)
    requires
        valid_preferences(preferences),
    ensures
        ({
            let lines = document_lines(preferences);
            &&& stored_list(lines, 7, preferences.save_shortcuts.len() as int) == Ok::<
                Seq<BindingView>,
                Seq<char>,
            >(preferences.save_shortcuts)
            &&& forall|i: int| 7 <= i < lines.len() ==> text::is_clean_line(#[trigger] lines[i])
        }),
{
    let lines = document_lines(preferences);
    let bindings = preferences.save_shortcuts;
    let count = bindings.len() as int;
    assert forall|i: int| 0 <= i < count implies valid_shortcut(
        (#[trigger] bindings[i]).shortcut,
    ) by {
        lemma_no_fault(bindings, count, i);
    }
    lemma_list_reads_back(lines, bindings, count);
    assert(bindings.take(count) =~= bindings);
    assert forall|i: int| 7 <= i < lines.len() implies text::is_clean_line(#[trigger] lines[i]) by {
        assert(valid_shortcut(bindings[i - 7].shortcut));
        lemma_binding_reads_back(lines, i, bindings[i - 7]);
    }
}

/// Reading what was written gives valid preferences back unchanged.
pub proof fn preferences_round_trip(preferences: PreferencesView)
    requires
        valid_preferences(preferences),
    ensures
        stored_preferences(text::joined_lines(document_lines(preferences))) == Ok::<
            PreferencesView,
            Seq<char>,
        >(preferences),
{
    let lines = document_lines(preferences);
    lemma_fixed_fields(preferences);
    lemma_bindings(preferences);
    text::joined_lines_round_trip(lines);
    lemma_parent_reads_back(preferences.custom_save_parent);
    lemma_duration_named(preferences.initial_save_duration);
    text::decimal_round_trip(preferences.save_shortcuts.len());
    reveal_strlit("mkv");
    reveal_strlit("mp4");
    assert("mkv"@[1] != "mp4"@[1]);
    reveal_strlit("true");
    reveal_strlit("false");
    assert("true"@.len() != "false"@.len());
}

/// Preferences that a document holds are valid.
pub proof fn stored_preferences_are_valid(contents: Seq<char>)
    requires
        stored_preferences(contents) is Ok,
    ensures
        valid_preferences(stored_preferences(contents)->Ok_0),
{
}

/// Replaces the save parent.
pub fn set_save_parent(preferences: ReplayPreferences, parent: Option<Vec<u8>>) -> (result: Result<
    ReplayPreferences,
    ReplayPreferencesError,
>)
    ensures
        match result {
            Ok(changed) => (parent matches Some(path) ==> valid_parent(path@)) && changed@
                == (PreferencesView { custom_save_parent: path_view(parent), ..preferences@ }),
            Err(error) => (parent matches Some(path) && !valid_parent(path@)) && error@
                == "replay save parent must be an absolute path within the supported length"@,
        },
{
    if let Some(path) = &parent {
        if let Err(error) = validate_parent(path.as_slice()) {
            return Err(error);
        }
    }
    let mut changed = preferences;
    changed.custom_save_parent = parent;
    Ok(changed)
}

/// Replaces the save shortcuts.
pub fn set_save_shortcuts(
    preferences: ReplayPreferences,
    bindings: Vec<ReplayShortcutBinding>,
) -> (result: Result<ReplayPreferences, ReplayPreferencesError>)
    ensures
        match result {
            Ok(changed) => hotkeys_fault(preferences@.overlay_shortcut, binding_views(bindings@)) is None
                && changed@ == (PreferencesView {
                save_shortcuts: binding_views(bindings@),
                ..preferences@
            }),
            Err(error) => hotkeys_fault(preferences@.overlay_shortcut, binding_views(bindings@))
                == Some(error@),
        },
{
    if let Err(error) = validate_hotkeys(preferences.overlay_shortcut.as_str(), bindings.as_slice()) {
        return Err(error);
    }
    let mut changed = preferences;
    changed.save_shortcuts = bindings;
    Ok(changed)
}

/// Replaces the overlay shortcut and the save shortcuts.
pub fn set_hotkeys(
    preferences: ReplayPreferences,
    overlay_shortcut: String,
    bindings: Vec<ReplayShortcutBinding>,
) -> (result: Result<ReplayPreferences, ReplayPreferencesError>)
    ensures
        match result {
            Ok(changed) => hotkeys_fault(overlay_shortcut@, binding_views(bindings@)) is None
                && changed@ == (PreferencesView {
                overlay_shortcut: overlay_shortcut@,
                save_shortcuts: binding_views(bindings@),
                ..preferences@
            }),
            Err(error) => hotkeys_fault(overlay_shortcut@, binding_views(bindings@)) == Some(
                error@,
            ),
        },
{
    if let Err(error) = validate_hotkeys(overlay_shortcut.as_str(), bindings.as_slice()) {
        return Err(error);
    }
    let mut changed = preferences;
    changed.overlay_shortcut = overlay_shortcut;
    changed.save_shortcuts = bindings;
    Ok(changed)
}

/// Replaces the overlay shortcut and its dismissal.
pub fn set_overlay_behavior(
    preferences: ReplayPreferences,
    overlay_shortcut: String,
    close_on_outside_click: bool,
) -> (result: Result<ReplayPreferences, ReplayPreferencesError>)
    ensures
        match result {
            Ok(changed) => hotkeys_fault(overlay_shortcut@, preferences@.save_shortcuts) is None
                && changed@ == (PreferencesView {
                overlay_shortcut: overlay_shortcut@,
                close_overlay_on_outside_click: close_on_outside_click,
                ..preferences@
            }),
            Err(error) => hotkeys_fault(overlay_shortcut@, preferences@.save_shortcuts) == Some(
                error@,
            ),
        },
{
    if let Err(error) = validate_hotkeys(
        overlay_shortcut.as_str(),
        preferences.save_shortcuts.as_slice(),
    ) {
        return Err(error);
    }
    let mut changed = preferences;
    changed.overlay_shortcut = overlay_shortcut;
    changed.close_overlay_on_outside_click = close_on_outside_click;
    Ok(changed)
}

/// Replaces only the dismissal of the overlay.
pub fn set_outside_click(preferences: ReplayPreferences, enabled: bool) -> (result: ReplayPreferences)
    ensures
        result@ == (PreferencesView { close_overlay_on_outside_click: enabled, ..preferences@ }),
{
    let mut changed = preferences;
    changed.close_overlay_on_outside_click = enabled;
    changed
}

/// Replaces only the output format.
pub fn set_output_format(preferences: ReplayPreferences, output_format: ReplayOutputFormat) -> (result:
    ReplayPreferences)
    ensures
        result@ == (PreferencesView { output_format, ..preferences@ }),
{
    let mut changed = preferences;
    changed.output_format = output_format;
    changed
}

/// Replaces only the initial save duration.
pub fn set_initial_save_duration(preferences: ReplayPreferences, duration: ReplayDuration) -> (result:
    ReplayPreferences)
    ensures
        result@ == (PreferencesView { initial_save_duration: duration, ..preferences@ }),
{
    let mut changed = preferences;
    changed.initial_save_duration = duration;
    changed
}

/// A length is stored as its number of seconds.
pub proof fn lengths_are_stored_in_seconds(duration: ReplayDuration)
    ensures
        token_of(duration) == text::decimal(
            match duration {
                ReplayDuration::Seconds15 => 15,
                ReplayDuration::Seconds30 => 30,
                ReplayDuration::Seconds60 => 60,
                ReplayDuration::Seconds120 => 120,
                ReplayDuration::Seconds180 => 180,
                ReplayDuration::Seconds300 => 300,
                ReplayDuration::Seconds600 => 600,
                ReplayDuration::Seconds900 => 900,
            },
        ),
{
    reveal_strlit("15");
    reveal_strlit("30");
    reveal_strlit("60");
    reveal_strlit("120");
    reveal_strlit("180");
    reveal_strlit("300");
    reveal_strlit("600");
    reveal_strlit("900");
    reveal_with_fuel(text::decimal, 4);
    assert("15"@ =~= text::decimal(15));
    assert("30"@ =~= text::decimal(30));
    assert("60"@ =~= text::decimal(60));
    assert("120"@ =~= text::decimal(120));
    assert("180"@ =~= text::decimal(180));
    assert("300"@ =~= text::decimal(300));
    assert("600"@ =~= text::decimal(600));
    assert("900"@ =~= text::decimal(900));
}

/// Preferences are stored as named lines in a fixed order, and every save
/// shortcut as the seconds it saves and its keys.
pub proof fn preferences_are_stored_by_name(preferences: PreferencesView, index: int)
    requires
        0 <= index < preferences.save_shortcuts.len(),
    ensures
        ({
            let lines = document_lines(preferences);
            let binding = preferences.save_shortcuts[index];
            &&& lines.len() == 7 + preferences.save_shortcuts.len()
            &&& lines[0] == "redunar-replay-preferences-v6"@
            &&& lines[1] == "save-parent="@ + (match preferences.custom_save_parent {
                None => "default"@,
                Some(parent) => text::hex_text(parent),
            })
            &&& lines[2] == "output-format="@ + (match preferences.output_format {
                ReplayOutputFormat::Matroska => "mkv"@,
                ReplayOutputFormat::Mp4 => "mp4"@,
            })
            &&& lines[3] == "overlay-shortcut="@ + preferences.overlay_shortcut
            &&& lines[4] == "close-on-outside-click="@ + (
            if preferences.close_overlay_on_outside_click {
                "true"@
            } else {
                "false"@
            })
            &&& lines[5] == "initial-save-duration="@ + token_of(preferences.initial_save_duration)
            &&& lines[6] == "binding-count="@ + text::decimal(preferences.save_shortcuts.len())
            &&& lines[7 + index] == "binding="@ + token_of(binding.duration) + ":"@
                + binding.shortcut
        }),
{
    reveal_strlit("save-parent");
    reveal_strlit("save-parent=");
    reveal_strlit("output-format");
    reveal_strlit("output-format=");
    reveal_strlit("overlay-shortcut");
    reveal_strlit("overlay-shortcut=");
    reveal_strlit("close-on-outside-click");
    reveal_strlit("close-on-outside-click=");
    reveal_strlit("initial-save-duration");
    reveal_strlit("initial-save-duration=");
    reveal_strlit("binding-count");
    reveal_strlit("binding-count=");
    reveal_strlit("binding");
    reveal_strlit("binding=");
    reveal_strlit(":");
    assert("save-parent"@ + seq!['='] =~= "save-parent="@);
    assert("output-format"@ + seq!['='] =~= "output-format="@);
    assert("overlay-shortcut"@ + seq!['='] =~= "overlay-shortcut="@);
    assert("close-on-outside-click"@ + seq!['='] =~= "close-on-outside-click="@);
    assert("initial-save-duration"@ + seq!['='] =~= "initial-save-duration="@);
    assert("binding-count"@ + seq!['='] =~= "binding-count="@);
    let binding = preferences.save_shortcuts[index];
    assert("binding"@ + seq!['='] =~= "binding="@);
    assert(binding_line(binding) =~= "binding="@ + token_of(binding.duration) + ":"@
        + binding.shortcut);
}

/// Shortcuts are accepted where there are eight at most besides the overlay's,
/// each of 1 to 64 printable ASCII characters and none like another. Only the
/// overlay may go without.
pub proof fn shortcuts_are_told_apart(overlay: Seq<char>, bindings: Seq<BindingView>)
    ensures
        hotkeys_fault(overlay, bindings) is None <==> {
            &&& bindings.len() <= 8
            &&& overlay.len() == 0 || is_key_text(overlay)
            &&& forall|i: int|
                0 <= i < bindings.len() ==> is_key_text((#[trigger] bindings[i]).shortcut)
                    && bindings[i].shortcut != overlay
            &&& forall|i: int, j: int|
                0 <= i < j < bindings.len() ==> (#[trigger] bindings[i]).shortcut != (
                #[trigger] bindings[j]).shortcut
        },
{
    lemma_bindings_fault(bindings, bindings.len() as int);
}

/// Whether a text can name keys.
pub open spec fn is_key_text(shortcut: Seq<char>) -> bool {
    1 <= shortcut.len() <= 64 && forall|i: int|
        0 <= i < shortcut.len() ==> ' ' <= #[trigger] shortcut[i] <= '~'
}

proof fn lemma_bindings_fault(bindings: Seq<BindingView>, count: int)
    requires
        0 <= count <= bindings.len(),
    ensures
        binding_fault(bindings, count) is None <==> {
            &&& forall|i: int|
                0 <= i < count ==> is_key_text((#[trigger] bindings[i]).shortcut)
            &&& forall|i: int, j: int|
                0 <= i < j < count ==> (#[trigger] bindings[i]).shortcut != (
                #[trigger] bindings[j]).shortcut
        },
    decreases count,
{
    if count > 0 {
        lemma_bindings_fault(bindings, count - 1);
        let last = bindings[count - 1].shortcut;
        assert(valid_shortcut(last) == is_key_text(last));
    }
}

/// Where clips go: into `Redunar Replays` below the directory that the user
/// chose, else below the videos in the home directory, else into the program's
/// own state.
pub proof fn clips_go_where_the_user_chose(
    preferences: PreferencesView,
    home: Seq<u8>,
    state: Seq<u8>,
)
    ensures
        preferences.custom_save_parent matches Some(parent) ==> save_directory(
            preferences,
            Some(home),
            state,
        ) == paths::joined(parent, "Redunar Replays".spec_bytes()) && save_directory(
            preferences,
            None,
            state,
        ) == paths::joined(parent, "Redunar Replays".spec_bytes()),
        preferences.custom_save_parent is None && paths::absolute(home) ==> save_directory(
            preferences,
            Some(home),
            state,
        ) == paths::joined(
            paths::joined(home, "Videos".spec_bytes()),
            "Redunar Replays".spec_bytes(),
        ),
        preferences.custom_save_parent is None && !paths::absolute(home) ==> save_directory(
            preferences,
            Some(home),
            state,
        ) == save_directory(preferences, None, state),
        preferences.custom_save_parent is None ==> save_directory(preferences, None, state)
            == paths::joined(state, "replays-v1".spec_bytes()),
{
}

/// Preferences of the first version name one shortcut, which saves thirty
/// seconds. All that came later is as a new user finds it.
pub proof fn first_preferences_are_still_read(shortcut: Seq<char>)
    requires
        is_key_text(shortcut),
        shortcut != "Shift+Tab"@,
    ensures
        stored_preferences(
            text::joined_lines(
                seq![
                    "redunar-replay-preferences-v1"@,
                    "save-parent=default"@,
                    "save-shortcut="@ + shortcut,
                ],
            ),
        ) == Ok::<PreferencesView, Seq<char>>(
            PreferencesView {
                custom_save_parent: None,
                output_format: ReplayOutputFormat::Matroska,
                overlay_shortcut: "Shift+Tab"@,
                close_overlay_on_outside_click: true,
                initial_save_duration: ReplayDuration::Seconds30,
                save_shortcuts: seq![
                    BindingView { shortcut, duration: ReplayDuration::Seconds30 },
                ],
            },
        ),
{
    reveal_strlit("redunar-replay-preferences-v1");
    reveal_strlit("save-parent=default");
    reveal_strlit("save-parent");
    reveal_strlit("default");
    reveal_strlit("save-shortcut=");
    reveal_strlit("save-shortcut");
    reveal_strlit("Shift+Tab");
    let lines = seq![
        "redunar-replay-preferences-v1"@,
        "save-parent=default"@,
        "save-shortcut="@ + shortcut,
    ];
    assert(lines[1] =~= field_line("save-parent"@, "default"@));
    assert(lines[2] =~= field_line("save-shortcut"@, shortcut));
    lemma_field_line(lines, 1, "save-parent"@, "default"@);
    lemma_field_line(lines, 2, "save-shortcut"@, shortcut);
    assert(text::is_clean_line(lines[0]));
    assert forall|i: int| 0 <= i < lines.len() implies text::is_clean_line(#[trigger] lines[i]) by {
        assert(i == 0 || i == 1 || i == 2);
    }
    text::joined_lines_round_trip(lines);
    let bindings = seq![BindingView { shortcut, duration: ReplayDuration::Seconds30 }];
    shortcuts_are_told_apart("Shift+Tab"@, bindings);
    assert(is_key_text("Shift+Tab"@));
}

/// Preferences of up to eight kibibytes are read, with a path of up to four.
pub proof fn preferences_are_short()
    ensures
        MAX_PREFERENCES_BYTES == 8 * 1_024,
        MAX_PATH_BYTES == 4 * 1_024,
        PREFERENCES_FILE@ == "replay-preferences-v1.txt"@,
{
}

/// A new user saves thirty seconds of Matroska with `F8`, opens the overlay with
/// `Shift+Tab` and closes it by a click beside it.
pub proof fn new_users_start_with_these()
    ensures
        default_preferences() == (PreferencesView {
            custom_save_parent: None,
            output_format: ReplayOutputFormat::Matroska,
            overlay_shortcut: "Shift+Tab"@,
            close_overlay_on_outside_click: true,
            initial_save_duration: ReplayDuration::Seconds30,
            save_shortcuts: seq![
                BindingView { shortcut: "F8"@, duration: ReplayDuration::Seconds30 },
            ],
        }),
{
}

} // verus!
