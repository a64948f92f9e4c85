//! Games that were found on this machine.
use crate::text;
use vstd::prelude::*;

verus! {

/// Evidence by which a running process is recognised as a game.
#[derive(Debug, PartialEq, Eq)]
pub enum GameMatchRule {
    Executable(Vec<u8>),
    ExecutableName(String),
    SteamAppId(u32),
}

/// What a [`GameMatchRule`] holds.
pub ghost enum RuleView {
    Executable(Seq<u8>),
    ExecutableName(Seq<char>),
    SteamAppId(u32),
}

impl View for GameMatchRule {
    type V = RuleView;

    open spec fn view(&self) -> RuleView {
        match self {
            GameMatchRule::Executable(path) => RuleView::Executable(path@),
            GameMatchRule::ExecutableName(name) => RuleView::ExecutableName(name@),
            GameMatchRule::SteamAppId(app_id) => RuleView::SteamAppId(*app_id),
        }
    }
}

/// A command without a shell.
#[derive(Debug, PartialEq, Eq)]
pub struct GameLaunchConfig {
    pub executable: Vec<u8>,
    pub arguments: Vec<Vec<u8>>,
    pub working_directory: Option<Vec<u8>>,
}

/// What a [`GameLaunchConfig`] holds.
#[verifier::ext_equal]
pub ghost struct LaunchView {
    pub executable: Seq<u8>,
    pub arguments: Seq<Seq<u8>>,
    pub working_directory: Option<Seq<u8>>,
}

impl View for GameLaunchConfig {
    type V = LaunchView;

    open spec fn view(&self) -> LaunchView {
        LaunchView {
            executable: self.executable@,
            arguments: text::byte_views(self.arguments@),
            working_directory: optional_path(self.working_directory),
        }
    }
}

/// The bytes of an optional path.
pub open spec fn optional_path(path: Option<Vec<u8>>) -> Option<Seq<u8>> {
    match path {
        Some(path) => Some(path@),
        None => None,
    }
}

/// Where a game was found.
#[derive(Debug, PartialEq, Eq)]
pub enum GameDiscoverySource {
    Steam { app_id: u32 },
    DesktopEntry { path: Vec<u8> },
    RunningProcess { pid: u32 },
}

/// What a [`GameDiscoverySource`] holds.
pub ghost enum SourceView {
    Steam { app_id: u32 },
    DesktopEntry { path: Seq<u8> },
    RunningProcess { pid: u32 },
}

impl View for GameDiscoverySource {
    type V = SourceView;

    open spec fn view(&self) -> SourceView {
        match self {
            GameDiscoverySource::Steam { app_id } => SourceView::Steam { app_id: *app_id },
            GameDiscoverySource::DesktopEntry { path } => SourceView::DesktopEntry { path: path@ },
            GameDiscoverySource::RunningProcess { pid } => SourceView::RunningProcess { pid: *pid },
        }
    }
}

/// A local game with bounded evidence of its identity. Without a verified
/// command there is no launch, and none may be guessed.
#[derive(Debug, PartialEq, Eq)]
pub struct DiscoveredGame {
    pub display_name: String,
    pub install_directory: Vec<u8>,
    pub poster_path: Option<Vec<u8>>,
    pub launch: Option<GameLaunchConfig>,
    pub match_rules: Vec<GameMatchRule>,
    pub source: GameDiscoverySource,
}

/// What a [`DiscoveredGame`] holds.
#[verifier::ext_equal]
pub ghost struct GameView {
    pub display_name: Seq<char>,
    pub install_directory: Seq<u8>,
    pub poster_path: Option<Seq<u8>>,
    pub launch: Option<LaunchView>,
    pub match_rules: Seq<RuleView>,
    pub source: SourceView,
}

impl View for DiscoveredGame {
    type V = GameView;

    open spec fn view(&self) -> GameView {
        GameView {
            display_name: self.display_name@,
            install_directory: self.install_directory@,
            poster_path: optional_path(self.poster_path),
            launch: match self.launch {
                Some(launch) => Some(launch@),
                None => None,
            },
            match_rules: self.match_rules@.map_values(|rule: GameMatchRule| rule@),
            source: self.source@,
        }
    }
}

/// A process that looks like a game.
#[derive(Debug, PartialEq, Eq)]
pub struct GameProcess {
    pub pid: u32,
    pub comm: String,
    pub executable: Vec<u8>,
    pub steam_app_id: Option<u32>,
    pub game_mode_active: bool,
}

/// What a [`GameProcess`] holds.
#[verifier::ext_equal]
pub ghost struct ProcessView {
    pub pid: u32,
    pub comm: Seq<char>,
    pub executable: Seq<u8>,
    pub steam_app_id: Option<u32>,
    pub game_mode_active: bool,
}

impl View for GameProcess {
    type V = ProcessView;

    open spec fn view(&self) -> ProcessView {
        ProcessView {
            pid: self.pid,
            comm: self.comm@,
            executable: self.executable@,
            steam_app_id: self.steam_app_id,
            game_mode_active: self.game_mode_active,
        }
    }
}

/// A failed search with its explanation.
#[derive(Clone, Debug, PartialEq, Eq)]
pub struct GameDiscoveryError {
    message: String,
}

impl View for GameDiscoveryError {
    type V = Seq<char>;

    closed spec fn view(&self) -> Seq<char> {
        self.message@
    }
}

impl GameDiscoveryError {
    pub fn new(message: &str) -> (result: Self)
        ensures
            result@ == message@,
    {
        GameDiscoveryError { message: message.to_owned() }
    }

    /// The explanation.
    pub fn message(&self) -> (result: &str)
        ensures
            result@ == self@,
    {
        self.message.as_str()
    }
}

/// How many bytes a display name may have.
pub const MAX_NAME_BYTES: usize = 256;

/// Whether a name can be shown: it is not empty, not too long and holds no
/// control characters.
pub open spec fn is_display_name(name: Seq<char>) -> bool {
    &&& name.len() > 0
    &&& vstd::utf8::encode_utf8(name).len() <= MAX_NAME_BYTES
    &&& !text::has_control(name)
}

/// A name without white space around it, if it can be shown.
pub fn display_name(name: &str) -> (result: Option<String>)
    ensures
        match result {
            Some(shown) => shown@ == text::trimmed(name@) && is_display_name(shown@),
            None => !is_display_name(text::trimmed(name@)),
        },
{
    let chars = text::chars_of(name);
    let trimmed = text::trim(chars.as_slice());
    if trimmed.len() == 0 || text::contains_control(trimmed.as_slice()) {
        return None;
    }
    let shown = text::string_of(trimmed.as_slice());
    if shown.as_str().as_bytes().len() > MAX_NAME_BYTES {
        return None;
    }
    Some(shown)
}

/// Whether a file's mode lets anyone run it.
pub open spec fn may_be_run(mode: u32) -> bool {
    mode & 0o111 != 0
}

/// Whether a file can be run.
pub fn is_executable_file(is_file: bool, mode: u32) -> (result: bool)
    ensures
        result == (is_file && may_be_run(mode)),
        result == (is_file && mode & 0o111 != 0),
{
    is_file && mode & 0o111 != 0
}

/// A file may be run where its owner, its group or everyone else may: the lowest
/// of each three bits of its mode.
pub proof fn any_execute_bit_counts(mode: u32)
    ensures
        may_be_run(mode) <==> mode % 2 == 1 || (mode / 8) % 2 == 1 || (mode / 64) % 2 == 1,
{
    assert((mode & 0o111 != 0) == (mode % 2 == 1 || (mode / 8) % 2 == 1 || (mode / 64) % 2 == 1))
        by (bit_vector);
}

/// A name is shown where it has up to 256 bytes and no control character.
pub proof fn shown_names_are_short_and_plain(name: Seq<char>)
    ensures
        is_display_name(name) <==> name.len() > 0 && vstd::utf8::encode_utf8(name).len() <= 256
            && (forall|i: int|
            0 <= i < name.len() ==> !(#[trigger] name[i] <= '\u{1f}') && !('\u{7f}' <= name[i]
                <= '\u{9f}')),
{
    if !text::has_control(name) {
        assert forall|i: int| 0 <= i < name.len() implies !(#[trigger] name[i] <= '\u{1f}') && !(
        '\u{7f}' <= name[i] <= '\u{9f}') by {
            assert(!text::is_control_code(name[i]));
        }
    }
}

} // verus!
