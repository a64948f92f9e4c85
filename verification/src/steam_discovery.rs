//! Installed Steam games, from local manifests.
use crate::games;
use crate::games::{
    DiscoveredGame, GameDiscoveryError, GameDiscoverySource, GameLaunchConfig, GameMatchRule,
    GameProcess, GameView, LaunchView, RuleView, SourceView,
};
use crate::path_map;
use crate::path_map::PathMap;
use crate::paths;
use crate::text;
use crate::vdf;
use crate::vdf::{VdfNode, VdfObject};
use vstd::prelude::*;
use vstd::string::*;

verus! {

broadcast use vstd::string::group_string_axioms;

pub const MAX_VDF_PATH_BYTES: usize = 4096;

pub const MAX_LIBRARY_FOLDERS: usize = 64;

pub const MAX_MANIFESTS_PER_LIBRARY: usize = 4096;

pub const MAX_DISCOVERED_GAMES: usize = 512;

pub const MAX_POSTER_BYTES: u64 = 20_971_520;

pub const MAX_POSTER_VARIANTS: usize = 64;

pub const FLATPAK_STEAM_APP: &'static str = "com.valvesoftware.Steam";

pub const STEAM_STATE_FULLY_INSTALLED: u64 = 4;

pub const NATIVE_ROOT: &'static str = ".local/share/Steam";

pub const LEGACY_ROOT: &'static str = ".steam/steam";

pub const FLATPAK_ROOT: &'static str = ".var/app/com.valvesoftware.Steam/.local/share/Steam";

/// Where Steam and its games are looked for.
#[derive(Debug)]
pub struct SteamGameDiscovery {
    home_directory: Vec<u8>,
    native_client: Vec<u8>,
    flatpak_client: Vec<u8>,
}

/// What a [`SteamGameDiscovery`] holds.
#[verifier::ext_equal]
pub ghost struct DiscoveryView {
    pub home_directory: Seq<u8>,
    pub native_client: Seq<u8>,
    pub flatpak_client: Seq<u8>,
}

impl View for SteamGameDiscovery {
    type V = DiscoveryView;

    closed spec fn view(&self) -> DiscoveryView {
        DiscoveryView {
            home_directory: self.home_directory@,
            native_client: self.native_client@,
            flatpak_client: self.flatpak_client@,
        }
    }
}

/// The arguments that make a Steam client start a game.
pub open spec fn launch_arguments(app_id: u32, is_flatpak: bool) -> Seq<Seq<u8>> {
    let number = vstd::utf8::encode_utf8(text::decimal(app_id as nat));
    if is_flatpak {
        seq![
            "run".spec_bytes(),
            FLATPAK_STEAM_APP.spec_bytes(),
            "-applaunch".spec_bytes(),
            number,
        ]
    } else {
        seq!["-applaunch".spec_bytes(), number]
    }
}

/// A number as text.
fn number_text(value: u64) -> (result: String)
    ensures
        result@ == text::decimal(value as nat),
{
    text::string_of(text::decimal_chars(value).as_slice())
}

fn bytes_of(value: &str) -> (result: Vec<u8>)
    ensures
        result@ == value.spec_bytes(),
{
    vstd::slice::slice_to_vec(value.as_bytes())
}

impl SteamGameDiscovery {
    pub fn new(home_directory: Vec<u8>) -> (result: Self)
        ensures
            result@ == (DiscoveryView {
                home_directory: home_directory@,
                native_client: "/usr/bin/steam".spec_bytes(),
                flatpak_client: "/usr/bin/flatpak".spec_bytes(),
            }),
    {
        SteamGameDiscovery {
            home_directory,
            native_client: bytes_of("/usr/bin/steam"),
            flatpak_client: bytes_of("/usr/bin/flatpak"),
        }
    }

    pub fn with_clients(
        home_directory: Vec<u8>,
        native_client: Vec<u8>,
        flatpak_client: Vec<u8>,
    ) -> (result: Self)
        ensures
            result@ == (DiscoveryView {
                home_directory: home_directory@,
                native_client: native_client@,
                flatpak_client: flatpak_client@,
            }),
    {
        SteamGameDiscovery { home_directory, native_client, flatpak_client }
    }

    /// The places where Steam may be, with whether each is in a Flatpak, in
    /// the order in which they are looked at.
    pub fn roots(&self) -> (result: Result<Vec<(Vec<u8>, bool)>, GameDiscoveryError>)
        ensures
            match result {
                Ok(roots) => paths::absolute(self@.home_directory) && path_map::path_entries(roots@)
                    == seq![
                    (paths::joined(self@.home_directory, NATIVE_ROOT.spec_bytes()), false),
                    (paths::joined(self@.home_directory, LEGACY_ROOT.spec_bytes()), false),
                    (paths::joined(self@.home_directory, FLATPAK_ROOT.spec_bytes()), true),
                ],
                Err(error) => !paths::absolute(self@.home_directory) && error@
                    == "the game discovery home directory must be absolute"@,
            },
    {
        let home = self.home_directory.as_slice();
        if !paths::is_absolute(home) {
            return Err(
                GameDiscoveryError::new("the game discovery home directory must be absolute"),
            );
        }
        let mut roots: Vec<(Vec<u8>, bool)> = Vec::new();
        roots.push((paths::join(home, NATIVE_ROOT.as_bytes()), false));
        roots.push((paths::join(home, LEGACY_ROOT.as_bytes()), false));
        roots.push((paths::join(home, FLATPAK_ROOT.as_bytes()), true));
        assert(path_map::path_entries(roots@) =~= seq![
            (paths::joined(self@.home_directory, NATIVE_ROOT.spec_bytes()), false),
            (paths::joined(self@.home_directory, LEGACY_ROOT.spec_bytes()), false),
            (paths::joined(self@.home_directory, FLATPAK_ROOT.spec_bytes()), true),
        ]);
        Ok(roots)
    }

    /// The client that starts a game.
    pub fn client(&self, is_flatpak: bool) -> (result: &[u8])
        ensures
            result@ == (if is_flatpak {
                self@.flatpak_client
            } else {
                self@.native_client
            }),
    {
        if is_flatpak {
            self.flatpak_client.as_slice()
        } else {
            self.native_client.as_slice()
        }
    }

    /// The command that starts a game, if its client can be run.
    pub fn launch_config(&self, app_id: u32, is_flatpak: bool, client_runs: bool) -> (result: Option<
        GameLaunchConfig,
    >)
        ensures
            match result {
                Some(launch) => client_runs && launch@ == (LaunchView {
                    executable: if is_flatpak {
                        self@.flatpak_client
                    } else {
                        self@.native_client
                    },
                    arguments: launch_arguments(app_id, is_flatpak),
                    working_directory: None,
                }),
                None => !client_runs,
            },
    {
        if !client_runs {
            return None;
        }
        let number = number_text(app_id as u64);
        let mut arguments: Vec<Vec<u8>> = Vec::new();
        if is_flatpak {
            arguments.push(bytes_of("run"));
            arguments.push(bytes_of(FLATPAK_STEAM_APP));
        }
        arguments.push(bytes_of("-applaunch"));
        arguments.push(bytes_of(number.as_str()));
        assert(text::byte_views(arguments@) =~= launch_arguments(app_id, is_flatpak));
        Some(
            GameLaunchConfig {
                executable: vstd::slice::slice_to_vec(self.client(is_flatpak)),
                arguments,
                working_directory: None,
            },
        )
    }
}

/// The application number in the name of a manifest.
pub open spec fn manifest_number(name: Seq<char>) -> Option<u32> {
    match text::after_prefix(name, "appmanifest_"@) {
        None => None,
        Some(rest) => match text::before_suffix(rest, ".acf"@) {
            None => None,
            Some(digits) => if text::all_digits(digits) && 0 < text::digits_value(digits)
                <= u32::MAX {
                Some(text::digits_value(digits) as u32)
            } else {
                None
            },
        },
    }
}

pub fn manifest_app_id(name: &str) -> (result: Option<u32>)
    ensures
        result == manifest_number(name@),
{
    let chars = text::chars_of(name);
    let rest = match text::strip_prefix(chars.as_slice(), "appmanifest_") {
        None => {
            return None;
        },
        Some(rest) => rest,
    };
    let digits = match text::strip_suffix(rest.as_slice(), ".acf") {
        None => {
            return None;
        },
        Some(digits) => digits,
    };
    if digits.len() == 0 || digits[0] == '+' {
        assert(digits@.len() > 0 ==> !text::is_digit(digits@[0]));
        return None;
    }
    match text::parse_decimal(digits.as_slice(), u32::MAX as u64) {
        None => None,
        Some(value) => if value == 0 {
            None
        } else {
            Some(value as u32)
        },
    }
}

/// Whether a name is a tool's, or starts with it and a space.
pub open spec fn names_tool(name: Seq<char>, tool: Seq<char>) -> bool {
    ||| text::alike(name, tool)
    ||| name.len() > tool.len() && text::alike(name.take(tool.len() as int), tool)
        && name[tool.len() as int] == ' '
}

/// Whether a name is that of something that Steam installs beside games.
pub open spec fn is_support_tool(name: Seq<char>) -> bool {
    ||| names_tool(name, "Proton"@)
    ||| names_tool(name, "Steam Linux Runtime"@)
    ||| names_tool(name, "Steamworks Common Redistributables"@)
    ||| names_tool(name, "Steamworks SDK Redist"@)
}

fn is_tool(name: &[char], tool: &str) -> (result: bool)
    ensures
        result == names_tool(name@, tool@),
{
    if text::eq_ignore_ascii_case(name, tool) {
        return true;
    }
    let length: usize = text::chars_of(tool).len();
    if name.len() <= length {
        return false;
    }
    let start = vstd::slice::slice_subrange(name, 0, length);
    assert(start@ =~= name@.take(length as int));
    text::eq_ignore_ascii_case(start, tool) && name[length] == ' '
}

pub fn is_steam_support_tool(name: &str) -> (result: bool)
    ensures
        result == is_support_tool(name@),
{
    let chars = text::chars_of(name);
    is_tool(chars.as_slice(), "Proton") || is_tool(chars.as_slice(), "Steam Linux Runtime")
        || is_tool(chars.as_slice(), "Steamworks Common Redistributables") || is_tool(
        chars.as_slice(),
        "Steamworks SDK Redist",
    )
}

/// What a manifest says of an installed game.
#[derive(Debug)]
pub struct ManifestGame {
    pub app_id: u32,
    pub name: String,
    pub install_directory: String,
}

/// What a [`ManifestGame`] holds.
#[verifier::ext_equal]
pub ghost struct ManifestView {
    pub app_id: u32,
    pub name: Seq<char>,
    pub install_directory: Seq<char>,
}

impl View for ManifestGame {
    type V = ManifestView;

    open spec fn view(&self) -> ManifestView {
        ManifestView {
            app_id: self.app_id,
            name: self.name@,
            install_directory: self.install_directory@,
        }
    }
}

/// The first text under a key.
pub open spec fn field(entries: Seq<(Seq<char>, VdfNode)>, key: Seq<char>) -> Option<Seq<char>> {
    vdf::first_text(vdf::values_named(entries, key, false))
}

/// The game of an application's state.
pub open spec fn state_game(file_id: u32, state: Seq<(Seq<char>, VdfNode)>) -> Option<
    ManifestView,
> {
    match (
        field(state, "appid"@),
        field(state, "StateFlags"@),
        field(state, "name"@),
        field(state, "installdir"@),
    ) {
        (Some(app_id), Some(flags), Some(name), Some(directory)) => {
            let id = text::parsed_decimal(app_id, u32::MAX as nat);
            let bits = text::parsed_decimal(flags, u64::MAX as nat);
            let shown = text::trimmed(name);
            if {
                &&& id == Some(file_id as nat)
                &&& bits is Some
                &&& (bits->0 as u64) & STEAM_STATE_FULLY_INSTALLED != 0
                &&& games::is_display_name(shown)
                &&& !is_support_tool(shown)
                &&& vstd::utf8::encode_utf8(directory).len() <= MAX_VDF_PATH_BYTES
                &&& paths::single_name(vstd::utf8::encode_utf8(directory))
            } {
                Some(
                    ManifestView {
                        app_id: file_id,
                        name: shown,
                        install_directory: directory,
                    },
                )
            } else {
                None
            }
        },
        _ => None,
    }
}

/// The game of a manifest with a file name. A manifest counts only if it
/// names the application that its file is named after, fully installed, and
/// not a tool.
pub open spec fn manifest_game(file_name: Seq<char>, entries: Seq<(Seq<char>, VdfNode)>) -> Option<
    ManifestView,
> {
    match manifest_number(file_name) {
        None => None,
        Some(file_id) => match vdf::first_object(
            vdf::values_named(entries, "AppState"@, false),
        ) {
            None => None,
            Some(state) => state_game(file_id, state),
        },
    }
}

fn read_state(file_id: u32, state: &VdfObject) -> (result: Option<ManifestGame>)
    requires
        file_id != 0,
    ensures
        match result {
            Some(game) => state_game(file_id, state@) == Some(game@),
            None => state_game(file_id, state@) is None,
        },
{
    let app_id = match state.text("appid") {
        None => {
            return None;
        },
        Some(value) => value,
    };
    let flags = match state.text("StateFlags") {
        None => {
            return None;
        },
        Some(value) => value,
    };
    let name = match state.text("name") {
        None => {
            return None;
        },
        Some(value) => value,
    };
    let directory = match state.text("installdir") {
        None => {
            return None;
        },
        Some(value) => value,
    };
    match text::parse_decimal(text::chars_of(app_id).as_slice(), u32::MAX as u64) {
        None => {
            return None;
        },
        Some(value) => {
            if value != file_id as u64 {
                return None;
            }
        },
    }
    match text::parse_decimal(text::chars_of(flags).as_slice(), u64::MAX) {
        None => {
            return None;
        },
        Some(bits) => {
            if bits & STEAM_STATE_FULLY_INSTALLED == 0 {
                return None;
            }
        },
    }
    let shown = match games::display_name(name) {
        None => {
            return None;
        },
        Some(shown) => shown,
    };
    if is_steam_support_tool(shown.as_str()) {
        return None;
    }
    if directory.as_bytes().len() > MAX_VDF_PATH_BYTES || !paths::is_single_path_component(
        directory.as_bytes(),
    ) {
        return None;
    }
    Some(
        ManifestGame { app_id: file_id, name: shown, install_directory: directory.to_owned() },
    )
}

/// Reads what a manifest says.
pub fn read_manifest(file_name: &str, document: &VdfObject) -> (result: Option<ManifestGame>)
    ensures
        match result {
            Some(game) => manifest_game(file_name@, document@) == Some(game@),
            None => manifest_game(file_name@, document@) is None,
        },
{
    match manifest_app_id(file_name) {
        None => None,
        Some(file_id) => match document.object("AppState") {
            None => None,
            Some(state) => read_state(file_id, state),
        },
    }
}

/// Accepts an installed directory below its library's common directory.
pub fn accepts_install(common: &[u8], installed: &[u8], is_directory: bool) -> (result: bool)
    ensures
        result == (is_directory && paths::below(installed@, common@)),
{
    is_directory && paths::is_below(installed, common)
}

/// The further library paths of a list of library folders: the absolute ones
/// among its first entries.
pub open spec fn library_paths(entries: Seq<(Seq<char>, VdfNode)>) -> Seq<Seq<char>>
    decreases entries.len(),
{
    if entries.len() == 0 {
        Seq::empty()
    } else {
        let before = library_paths(entries.drop_last());
        match entries.last().1 {
            VdfNode::Object(folder) => match field(folder, "path"@) {
                Some(path) => if paths::absolute(vstd::utf8::encode_utf8(path)) {
                    before.push(path)
                } else {
                    before
                },
                None => before,
            },
            VdfNode::Text(_) => before,
        }
    }
}

/// The further library paths that a document names.
pub open spec fn extra_paths(entries: Seq<(Seq<char>, VdfNode)>) -> Seq<Seq<char>> {
    match vdf::first_object(vdf::values_named(entries, "libraryfolders"@, false)) {
        None => Seq::empty(),
        Some(folders) => library_paths(
            folders.take(
                if folders.len() <= MAX_LIBRARY_FOLDERS {
                    folders.len() as int
                } else {
                    MAX_LIBRARY_FOLDERS as int
                },
            ),
        ),
    }
}

/// Texts as sequences of characters.
pub open spec fn texts(list: Seq<String>) -> Seq<Seq<char>> {
    list.map_values(|text: String| text@)
}

/// Reads the further library paths that a document names.
pub fn extra_library_paths(document: &VdfObject) -> (result: Vec<String>)
    ensures
        texts(result@) == extra_paths(document@),
{
    let mut found: Vec<String> = Vec::new();
    assert(texts(found@) =~= Seq::<Seq<char>>::empty());
    if let Some(folders) = document.object("libraryfolders") {
        let limit: usize = if folders.len() <= MAX_LIBRARY_FOLDERS {
            folders.len()
        } else {
            MAX_LIBRARY_FOLDERS
        };
        let ghost all = folders@;
        let mut index: usize = 0;
        assert(all.take(0) =~= Seq::<(Seq<char>, VdfNode)>::empty());
        while index < limit
            invariant
                index <= limit <= all.len(),
                all == folders@,
                texts(found@) == library_paths(all.take(index as int)),
            decreases limit - index,
        {
            let ghost before = texts(found@);
            assert(all.take(index + 1).drop_last() =~= all.take(index as int));
            assert(all.take(index + 1).last() == all[index as int]);
            if let Some(folder) = folders.object_at(index) {
                if let Some(path) = folder.text("path") {
                    if paths::is_absolute(path.as_bytes()) {
                        found.push(path.to_owned());
                        assert(texts(found@) =~= before.push(path@));
                    }
                }
            }
            index = index + 1;
        }
    }
    found
}

/// Libraries in the order of their paths, each with whether it belongs to a
/// Flatpak.
#[derive(Debug)]
pub struct LibraryList {
    libraries: PathMap<bool>,
}

impl View for LibraryList {
    type V = Seq<(Seq<u8>, bool)>;

    closed spec fn view(&self) -> Seq<(Seq<u8>, bool)> {
        self.libraries@
    }
}

/// Further libraries added one by one, as long as the list is not at its
/// limit.
pub open spec fn with_extras(
    libraries: Seq<(Seq<u8>, bool)>,
    extras: Seq<(Seq<u8>, ())>,
    is_flatpak: bool,
) -> Seq<(Seq<u8>, bool)>
    decreases extras.len(),
{
    if extras.len() == 0 || libraries.len() == MAX_LIBRARY_FOLDERS {
        libraries
    } else {
        with_extras(
            path_map::placed(libraries, extras[0].0, is_flatpak),
            extras.skip(1),
            is_flatpak,
        )
    }
}

/// Paths in order, each once.
pub open spec fn path_set(found: Seq<Seq<u8>>) -> Seq<(Seq<u8>, ())>
    decreases found.len(),
{
    if found.len() == 0 {
        Seq::empty()
    } else {
        path_map::placed(path_set(found.drop_last()), found.last(), ())
    }
}

impl LibraryList {
    pub fn new() -> (result: Self)
        ensures
            result@ == Seq::<(Seq<u8>, bool)>::empty(),
    {
        LibraryList { libraries: PathMap::new() }
    }

    /// Adds the library of a root, unless it is there already.
    pub fn add_root(&mut self, root: Vec<u8>, is_flatpak: bool)
        ensures
            final(self)@ == path_map::placed(old(self)@, root@, is_flatpak),
            path_map::in_order(final(self)@),
    {
        let _ = self.libraries.insert_if_absent(root, is_flatpak);
    }

    /// Adds the further libraries of a root, in the order of their paths.
    pub fn add_extras(&mut self, found: Vec<Vec<u8>>, is_flatpak: bool)
        ensures
            final(self)@ == with_extras(
                old(self)@,
                path_set(text::byte_views(found@)),
                is_flatpak,
            ),
    {
        let ghost all = text::byte_views(found@);
        let mut extras: PathMap<()> = PathMap::new();
        let mut index: usize = 0;
        assert(all.take(0) =~= Seq::<Seq<u8>>::empty());
        while index < found.len()
            invariant
                index <= found@.len(),
                all == text::byte_views(found@),
                extras@ == path_set(all.take(index as int)),
            decreases found@.len() - index,
        {
            assert(all.take(index + 1).drop_last() =~= all.take(index as int));
            assert(all.take(index + 1).last() == found@[index as int]@);
            let _ = extras.insert_if_absent(
                vstd::slice::slice_to_vec(found[index].as_slice()),
                (),
            );
            index = index + 1;
        }
        assert(all.take(index as int) =~= all);
        let ghost ordered = extras@;
        let entries = extras.into_entries();
        let ghost target = with_extras(old(self)@, ordered, is_flatpak);
        let mut next: usize = 0;
        assert(ordered.skip(0) =~= ordered);
        while next < entries.len()
            invariant
                next <= entries@.len(),
                ordered == path_map::path_entries(entries@),
                target == with_extras(self@, ordered.skip(next as int), is_flatpak),
            ensures
                target == self@,
            decreases entries@.len() - next,
        {
            if self.libraries.len() == MAX_LIBRARY_FOLDERS {
                break;
            }
            assert(ordered.skip(next as int)[0].0 == entries@[next as int].0@);
            assert(ordered.skip(next as int).skip(1) =~= ordered.skip(next + 1));
            let _ = self.libraries.insert_if_absent(
                vstd::slice::slice_to_vec(entries[next].0.as_slice()),
                is_flatpak,
            );
            next = next + 1;
        }
    }

    /// The libraries, in the order of their paths.
    pub fn libraries(&self) -> (result: &[(Vec<u8>, bool)])
        ensures
            path_map::path_entries(result@) == self@,
            path_map::in_order(self@),
    {
        self.libraries.entries()
    }
}

/// Whether a directory entry is a manifest.
pub open spec fn is_manifest(name: Seq<u8>, is_file: bool) -> bool {
    is_file && vstd::utf8::valid_utf8(name) && manifest_number(vstd::utf8::decode_utf8(name)) is Some
}

/// The names of the manifests among directory entries.
pub open spec fn manifest_names(entries: Seq<(Seq<u8>, bool)>) -> Seq<Seq<u8>>
    decreases entries.len(),
{
    if entries.len() == 0 {
        Seq::empty()
    } else {
        let before = manifest_names(entries.drop_last());
        if is_manifest(entries.last().0, entries.last().1) {
            before.push(entries.last().0)
        } else {
            before
        }
    }
}

/// Picks the manifests among the first entries of a directory, each entry a
/// name and whether it is a regular file, and puts them in order.
pub fn manifest_paths(entries: &[(Vec<u8>, bool)]) -> (result: PathMap<()>)
    ensures
        result@ == path_set(
            manifest_names(
                path_map::path_entries(entries@).take(
                    if entries@.len() <= MAX_MANIFESTS_PER_LIBRARY {
                        entries@.len() as int
                    } else {
                        MAX_MANIFESTS_PER_LIBRARY as int
                    },
                ),
            ),
        ),
{
    let ghost all = path_map::path_entries(entries@);
    let limit: usize = if entries.len() <= MAX_MANIFESTS_PER_LIBRARY {
        entries.len()
    } else {
        MAX_MANIFESTS_PER_LIBRARY
    };
    let mut found: PathMap<()> = PathMap::new();
    let mut index: usize = 0;
    assert(all.take(0) =~= Seq::<(Seq<u8>, bool)>::empty());
    while index < limit
        invariant
            index <= limit <= entries@.len(),
            all == path_map::path_entries(entries@),
            found@ == path_set(manifest_names(all.take(index as int))),
        decreases limit - index,
    {
        let ghost before = manifest_names(all.take(index as int));
        assert(all.take(index + 1).drop_last() =~= all.take(index as int));
        assert(all.take(index + 1).last() == (entries@[index as int].0@, entries@[index as int].1));
        let name = entries[index].0.as_slice();
        if entries[index].1 {
            if let Some(decoded) = text::decode(name) {
                if manifest_app_id(decoded.as_str()).is_some() {
                    let _ = found.insert_if_absent(vstd::slice::slice_to_vec(name), ());
                    assert(before.push(name@).drop_last() =~= before);
                }
            }
        }
        index = index + 1;
    }
    found
}

/// Games in the order of their application numbers.
#[derive(Debug)]
pub struct GameCatalog {
    games: Vec<(u32, DiscoveredGame)>,
}

impl View for GameCatalog {
    type V = Seq<(u32, DiscoveredGame)>;

    closed spec fn view(&self) -> Seq<(u32, DiscoveredGame)> {
        self.games@
    }
}

/// A game put in its place, unless its application has one already.
pub open spec fn listed(
    games: Seq<(u32, DiscoveredGame)>,
    app_id: u32,
    game: DiscoveredGame,
) -> Seq<(u32, DiscoveredGame)>
    decreases games.len(),
{
    if games.len() == 0 {
        seq![(app_id, game)]
    } else if app_id == games[0].0 {
        games
    } else if app_id < games[0].0 {
        seq![(app_id, game)] + games
    } else {
        seq![games[0]] + listed(games.skip(1), app_id, game)
    }
}

/// Whether application numbers rise.
pub open spec fn numbers_rise(games: Seq<(u32, DiscoveredGame)>) -> bool {
    forall|i: int, j: int|
        0 <= i < j < games.len() ==> (#[trigger] games[i]).0 < (#[trigger] games[j]).0
}

/// A listed game keeps the numbers in order; the first game of an
/// application stays.
pub proof fn listed_keeps_order(
    games: Seq<(u32, DiscoveredGame)>,
    app_id: u32,
    game: DiscoveredGame,
)
    requires
        numbers_rise(games),
    ensures
        numbers_rise(listed(games, app_id, game)),
        forall|i: int|
            0 <= i < games.len() ==> listed(games, app_id, game).contains(#[trigger] games[i]),
        forall|entry: (u32, DiscoveredGame)| #[trigger]
            listed(games, app_id, game).contains(entry) ==> entry == (app_id, game)
                || games.contains(entry),
    decreases games.len(),
{
    let after = listed(games, app_id, game);
    if games.len() > 0 && app_id > games[0].0 {
        let tail = games.skip(1);
        assert forall|i: int, j: int| 0 <= i < j < tail.len() implies (#[trigger] tail[i]).0 < (
        #[trigger] tail[j]).0 by {
            assert(tail[i] == games[i + 1] && tail[j] == games[j + 1]);
        }
        listed_keeps_order(tail, app_id, game);
        let inner = listed(tail, app_id, game);
        assert forall|k: int| 0 <= k < inner.len() implies games[0].0 < (#[trigger] inner[k]).0 by {
            assert(inner.contains(inner[k]));
            if inner[k] != (app_id, game) {
                let at = choose|at: int| 0 <= at < tail.len() && tail[at] == inner[k];
                assert(tail[at] == games[at + 1]);
            }
        }
        assert forall|i: int, j: int| 0 <= i < j < after.len() implies (#[trigger] after[i]).0 < (
        #[trigger] after[j]).0 by {
            assert(after[j] == inner[j - 1]);
            if i > 0 {
                assert(after[i] == inner[i - 1]);
            }
        }
        assert forall|i: int| 0 <= i < games.len() implies #[trigger] after.contains(games[i]) by {
            if i == 0 {
                assert(after[0] == games[0]);
            } else {
                assert(tail[i - 1] == games[i]);
                let at = choose|at: int| 0 <= at < inner.len() && inner[at] == games[i];
                assert(after[at + 1] == inner[at]);
            }
        }
        assert forall|entry: (u32, DiscoveredGame)| #[trigger] after.contains(entry) implies entry
            == (app_id, game) || games.contains(entry) by {
            let at = choose|at: int| 0 <= at < after.len() && after[at] == entry;
            if at == 0 {
                assert(games[0] == entry);
            } else {
                assert(inner[at - 1] == entry);
                assert(inner.contains(entry));
                if entry != (app_id, game) {
                    let from = choose|from: int| 0 <= from < tail.len() && tail[from] == entry;
                    assert(games[from + 1] == entry);
                }
            }
        }
    } else if games.len() > 0 && app_id < games[0].0 {
        assert forall|i: int| 0 <= i < games.len() implies #[trigger] after.contains(games[i]) by {
            assert(after[i + 1] == games[i]);
        }
        assert forall|i: int, j: int| 0 <= i < j < after.len() implies (#[trigger] after[i]).0 < (
        #[trigger] after[j]).0 by {
            assert(after[j] == games[j - 1]);
            if i > 0 {
                assert(after[i] == games[i - 1]);
            } else if j > 1 {
                assert(games[0].0 < games[j - 1].0);
            }
        }
        assert forall|entry: (u32, DiscoveredGame)| #[trigger] after.contains(entry) implies entry
            == (app_id, game) || games.contains(entry) by {
            let at = choose|at: int| 0 <= at < after.len() && after[at] == entry;
            if at > 0 {
                assert(games[at - 1] == entry);
            }
        }
    }
}

impl GameCatalog {
    #[verifier::type_invariant]
    spec fn sorted(self) -> bool {
        numbers_rise(self.games@) && self.games@.len() <= MAX_DISCOVERED_GAMES
    }

    pub fn new() -> (result: Self)
        ensures
            result@ == Seq::<(u32, DiscoveredGame)>::empty(),
    {
        GameCatalog { games: Vec::new() }
    }

    /// Whether no further game is taken.
    pub fn is_full(&self) -> (result: bool)
        ensures
            result == (self@.len() == MAX_DISCOVERED_GAMES),
    {
        self.games.len() == MAX_DISCOVERED_GAMES
    }

    /// Takes the first game of each application, as long as there is room.
    pub fn add(&mut self, app_id: u32, game: DiscoveredGame)
        ensures
            final(self)@ == (if old(self)@.len() == MAX_DISCOVERED_GAMES {
                old(self)@
            } else {
                listed(old(self)@, app_id, game)
            }),
            numbers_rise(final(self)@),
            final(self)@.len() <= MAX_DISCOVERED_GAMES,
    {
        proof {
            use_type_invariant(&*self);
            listed_keeps_order(self.games@, app_id, game);
        }
        if self.games.len() == MAX_DISCOVERED_GAMES {
            return;
        }
        let ghost all = self.games@;
        let mut index: usize = 0;
        assert(all.skip(0) =~= all);
        assert(listed(all, app_id, game) =~= all.take(0) + listed(all.skip(0), app_id, game));
        while index < self.games.len() && self.games[index].0 < app_id
            invariant
                index <= self.games@.len(),
                all == self.games@,
                listed(all, app_id, game) == all.take(index as int) + listed(
                    all.skip(index as int),
                    app_id,
                    game,
                ),
            decreases self.games@.len() - index,
        {
            assert(all.skip(index as int)[0] == all[index as int]);
            assert(all.skip(index as int).skip(1) =~= all.skip(index + 1));
            assert(all.take(index as int) + (seq![all[index as int]] + listed(
                all.skip(index + 1),
                app_id,
                game,
            )) =~= all.take(index + 1) + listed(all.skip(index + 1), app_id, game));
            index = index + 1;
        }
        let ghost rest = all.skip(index as int);
        assert(index < all.len() ==> rest[0] == all[index as int]);
        if index < self.games.len() && self.games[index].0 == app_id {
            assert(all.take(index as int) + rest =~= all);
            return;
        }
        let mut games: Vec<(u32, DiscoveredGame)> = Vec::new();
        std::mem::swap(&mut games, &mut self.games);
        games.insert(index, (app_id, game));
        proof {
            if index == all.len() {
                assert(rest =~= Seq::<(u32, DiscoveredGame)>::empty());
            }
            assert(games@ =~= all.take(index as int) + (seq![(app_id, game)] + rest));
        }
        self.games = games;
    }

    /// The games, in the order of their application numbers.
    pub fn into_games(self) -> (result: Vec<(u32, DiscoveredGame)>)
        ensures
            result@ == self@,
            numbers_rise(result@),
            result@.len() <= MAX_DISCOVERED_GAMES,
    {
        proof {
            use_type_invariant(&self);
        }
        self.games
    }
}

/// A game of a manifest, with what was found of it on the disk.
pub fn steam_game(
    manifest: ManifestGame,
    installed: Vec<u8>,
    poster_path: Option<Vec<u8>>,
    launch: Option<GameLaunchConfig>,
) -> (result: DiscoveredGame)
    ensures
        result@ == (GameView {
            display_name: manifest@.name,
            install_directory: installed@,
            poster_path: games::optional_path(poster_path),
            launch: match launch {
                Some(launch) => Some(launch@),
                None => None,
            },
            match_rules: seq![RuleView::SteamAppId(manifest@.app_id)],
            source: SourceView::Steam { app_id: manifest@.app_id },
        }),
{
    let app_id: u32 = manifest.app_id;
    let mut match_rules: Vec<GameMatchRule> = Vec::new();
    match_rules.push(GameMatchRule::SteamAppId(app_id));
    assert(match_rules@.map_values(|rule: GameMatchRule| rule@) =~= seq![
        RuleView::SteamAppId(app_id),
    ]);
    DiscoveredGame {
        display_name: manifest.name,
        install_directory: installed,
        poster_path,
        launch,
        match_rules,
        source: GameDiscoverySource::Steam { app_id },
    }
}

/// Names of portrait artwork, in the order of preference.
pub open spec fn poster_files() -> Seq<&'static str> {
    seq!["library_600x900.jpg", "library_600x900.png"]
}

pub fn poster_names() -> (result: Vec<&'static str>)
    ensures
        result@ == poster_files(),
{
    let names = vec!["library_600x900.jpg", "library_600x900.png"];
    assert(names@ =~= poster_files());
    names
}

/// Names of wide artwork, in the order of preference. Portraits are not among
/// them.
pub open spec fn banner_files() -> Seq<&'static str> {
    seq![
        "library_hero.jpg",
        "library_hero.png",
        "library_header.jpg",
        "library_header.png",
        "header.jpg",
        "header.png",
    ]
}

pub fn banner_names() -> (result: Vec<&'static str>)
    ensures
        result@ == banner_files(),
{
    let names = vec![
        "library_hero.jpg",
        "library_hero.png",
        "library_header.jpg",
        "library_header.png",
        "header.jpg",
        "header.png",
    ];
    assert(names@ =~= banner_files());
    names
}

/// One look into a cache of artwork: the place of the installation, and the
/// names to look for.
#[derive(Clone, Debug)]
pub struct ArtworkSearch {
    pub root: Vec<u8>,
    pub names: Vec<&'static str>,
}

pub open spec fn search_views(searches: Seq<ArtworkSearch>) -> Seq<(Seq<u8>, Seq<&'static str>)> {
    searches.map_values(|search: ArtworkSearch| (search.root@, search.names@))
}

/// The places of the installations, native ones first.
pub open spec fn artwork_homes(home: Seq<u8>) -> Seq<Seq<u8>> {
    seq![
        paths::joined(home, NATIVE_ROOT.spec_bytes()),
        paths::joined(home, LEGACY_ROOT.spec_bytes()),
        paths::joined(home, FLATPAK_ROOT.spec_bytes()),
    ]
}

/// The looks for some names in every place.
pub open spec fn searches_for(home: Seq<u8>, names: Seq<&'static str>) -> Seq<
    (Seq<u8>, Seq<&'static str>),
> {
    artwork_homes(home).map_values(|root: Seq<u8>| (root, names))
}

/// The looks for wide artwork: a better name anywhere comes before another
/// name.
pub open spec fn banner_searches(home: Seq<u8>, names: Seq<&'static str>) -> Seq<
    (Seq<u8>, Seq<&'static str>),
>
    decreases names.len(),
{
    if names.len() == 0 {
        Seq::empty()
    } else {
        banner_searches(home, names.drop_last()) + searches_for(home, seq![names.last()])
    }
}

fn add_searches(searches: &mut Vec<ArtworkSearch>, home: &[u8], names: &[&'static str])
    ensures
        search_views(final(searches)@) == search_views(old(searches)@) + searches_for(
            home@,
            names@,
        ),
{
    let ghost before = search_views(searches@);
    let native = vstd::slice::slice_to_vec(names);
    let legacy = vstd::slice::slice_to_vec(names);
    let flatpak = vstd::slice::slice_to_vec(names);
    searches.push(
        ArtworkSearch { root: paths::join(home, NATIVE_ROOT.as_bytes()), names: native },
    );
    searches.push(
        ArtworkSearch { root: paths::join(home, LEGACY_ROOT.as_bytes()), names: legacy },
    );
    searches.push(
        ArtworkSearch { root: paths::join(home, FLATPAK_ROOT.as_bytes()), names: flatpak },
    );
    assert(search_views(searches@) =~= before + searches_for(home@, names@));
}

impl SteamGameDiscovery {
    /// Where portrait artwork is looked for. The first that is found is taken.
    pub fn local_poster(&self) -> (result: Vec<ArtworkSearch>)
        ensures
            search_views(result@) == searches_for(self@.home_directory, poster_files()),
    {
        let mut searches: Vec<ArtworkSearch> = Vec::new();
        let names = poster_names();
        add_searches(&mut searches, self.home_directory.as_slice(), names.as_slice());
        assert(search_views(searches@) =~= searches_for(self@.home_directory, poster_files()));
        searches
    }

    /// Where portrait artwork of one installation's games is looked for.
    pub fn cached_poster(&self, is_flatpak: bool) -> (result: Vec<ArtworkSearch>)
        ensures
            search_views(result@) == (if is_flatpak {
                searches_for(self@.home_directory, poster_files()).skip(2)
            } else {
                searches_for(self@.home_directory, poster_files()).take(2)
            }),
    {
        let ghost all = searches_for(self@.home_directory, poster_files());
        let mut searches = self.local_poster();
        if is_flatpak {
            let _ = searches.remove(0);
            let _ = searches.remove(0);
            assert(search_views(searches@) =~= all.skip(2));
        } else {
            searches.truncate(2);
            assert(search_views(searches@) =~= all.take(2));
        }
        searches
    }

    /// Where wide artwork is looked for. The first that is found is taken.
    pub fn local_banner(&self) -> (result: Vec<ArtworkSearch>)
        ensures
            search_views(result@) == banner_searches(self@.home_directory, banner_files()),
    {
        let mut searches: Vec<ArtworkSearch> = Vec::new();
        let names = banner_names();
        let home = self.home_directory.as_slice();
        let mut index: usize = 0;
        assert(search_views(searches@) =~= banner_searches(home@, names@.take(0)));
        while index < names.len()
            invariant
                index <= names@.len(),
                search_views(searches@) == banner_searches(home@, names@.take(index as int)),
            decreases names@.len() - index,
        {
            assert(names@.take(index + 1).drop_last() =~= names@.take(index as int));
            let name = vec![names[index]];
            assert(name@ =~= seq![names@.take(index + 1).last()]);
            add_searches(&mut searches, home, name.as_slice());
            index = index + 1;
        }
        assert(names@.take(index as int) =~= names@);
        searches
    }
}

/// The names of artwork below a directory.
pub open spec fn artwork_in(directory: Seq<u8>, names: Seq<&'static str>) -> Seq<Seq<u8>> {
    names.map_values(|name: &'static str| paths::joined(directory, name.spec_bytes()))
}

/// The names of artwork directly in a cache, after the application number.
pub open spec fn flat_artwork(cache: Seq<u8>, app_id: u32, names: Seq<&'static str>) -> Seq<Seq<u8>> {
    names.map_values(
        |name: &'static str|
            paths::joined(
                cache,
                vstd::utf8::encode_utf8(text::decimal(app_id as nat) + "_"@ + name@),
            ),
    )
}

/// The names of artwork in each of some directories.
pub open spec fn artwork_in_each(directories: Seq<Seq<u8>>, names: Seq<&'static str>) -> Seq<Seq<u8>>
    decreases directories.len(),
{
    if directories.len() == 0 {
        Seq::empty()
    } else {
        artwork_in_each(directories.drop_last(), names) + artwork_in(directories.last(), names)
    }
}

/// The directory of an application's artwork in a cache.
pub open spec fn artwork_directory(cache: Seq<u8>, app_id: u32) -> Seq<u8> {
    paths::joined(cache, vstd::utf8::encode_utf8(text::decimal(app_id as nat)))
}

pub fn artwork_app_directory(cache: &[u8], app_id: u32) -> (result: Vec<u8>)
    ensures
        result@ == artwork_directory(cache@, app_id),
{
    paths::join(cache, number_text(app_id as u64).as_str().as_bytes())
}

/// Where artwork of an application may be: directly in the cache, then in the
/// application's directory if there is one, then in its subdirectories.
pub open spec fn artwork_places(
    cache: Seq<u8>,
    app_id: u32,
    names: Seq<&'static str>,
    variants: Option<Seq<Seq<u8>>>,
) -> Seq<Seq<u8>> {
    match variants {
        None => flat_artwork(cache, app_id, names),
        Some(directories) => flat_artwork(cache, app_id, names) + artwork_in(
            artwork_directory(cache, app_id),
            names,
        ) + artwork_in_each(directories, names),
    }
}

fn put_artwork(places: &mut Vec<Vec<u8>>, directory: &[u8], names: &[&'static str])
    ensures
        text::byte_views(final(places)@) == text::byte_views(old(places)@) + artwork_in(
            directory@,
            names@,
        ),
{
    let ghost start = text::byte_views(places@);
    let ghost wanted = artwork_in(directory@, names@);
    let mut index: usize = 0;
    assert(start + wanted.take(0) =~= start);
    while index < names.len()
        invariant
            index <= names@.len(),
            wanted == artwork_in(directory@, names@),
            text::byte_views(places@) == start + wanted.take(index as int),
        decreases names@.len() - index,
    {
        let ghost before = text::byte_views(places@);
        let place = paths::join(directory, names[index].as_bytes());
        places.push(place);
        assert(text::byte_views(places@) =~= before.push(place@));
        assert(start + wanted.take(index + 1) =~= (start + wanted.take(index as int)).push(
            wanted[index as int],
        ));
        index = index + 1;
    }
    assert(wanted.take(index as int) =~= wanted);
}

/// Lists where artwork of an application may be, best first. `variants` are
/// the subdirectories of the application's directory, if it has one.
pub fn artwork_candidates(
    cache: &[u8],
    app_id: u32,
    names: &[&'static str],
    variants: Option<&[Vec<u8>]>,
) -> (result: Vec<Vec<u8>>)
    ensures
        text::byte_views(result@) == artwork_places(
            cache@,
            app_id,
            names@,
            match variants {
                Some(directories) => Some(text::byte_views(directories@)),
                None => None,
            },
        ),
{
    let mut places: Vec<Vec<u8>> = Vec::new();
    let ghost flat = flat_artwork(cache@, app_id, names@);
    let mut index: usize = 0;
    assert(text::byte_views(places@) =~= flat.take(0));
    while index < names.len()
        invariant
            index <= names@.len(),
            flat == flat_artwork(cache@, app_id, names@),
            text::byte_views(places@) == flat.take(index as int),
        decreases names@.len() - index,
    {
        let ghost before = text::byte_views(places@);
        let mut name = number_text(app_id as u64);
        name.append("_");
        name.append(names[index]);
        let place = paths::join(cache, name.as_str().as_bytes());
        places.push(place);
        assert(text::byte_views(places@) =~= before.push(place@));
        assert(flat.take(index + 1) =~= flat.take(index as int).push(flat[index as int]));
        index = index + 1;
    }
    assert(flat.take(index as int) =~= flat);
    if let Some(directories) = variants {
        let app_directory = artwork_app_directory(cache, app_id);
        put_artwork(&mut places, app_directory.as_slice(), names);
        let ghost start = text::byte_views(places@);
        let ghost all = text::byte_views(directories@);
        let mut next: usize = 0;
        assert(all.take(0) =~= Seq::<Seq<u8>>::empty());
        assert(start + artwork_in_each(all.take(0), names@) =~= start);
        while next < directories.len()
            invariant
                next <= directories@.len(),
                all == text::byte_views(directories@),
                text::byte_views(places@) == start + artwork_in_each(all.take(next as int), names@),
            decreases directories@.len() - next,
        {
            put_artwork(&mut places, directories[next].as_slice(), names);
            assert(all.take(next + 1).drop_last() =~= all.take(next as int));
            assert(all.take(next + 1).last() == directories@[next as int]@);
            assert(text::byte_views(places@) =~= start + artwork_in_each(
                all.take(next + 1),
                names@,
            ));
            next = next + 1;
        }
        assert(all.take(next as int) =~= all);
    }
    places
}

/// Accepts a cached image: a regular file of a reasonable size whose real
/// place lies in the cache.
pub fn accepts_image(cache: &[u8], canonical: &[u8], is_file: bool, length: u64) -> (result: bool)
    ensures
        result == (is_file && 0 < length <= MAX_POSTER_BYTES && paths::below(canonical@, cache@)),
{
    is_file && length != 0 && length <= MAX_POSTER_BYTES && paths::is_below(canonical, cache)
}

/// Whether a file name is that of a runtime which many games share.
pub open spec fn is_runtime_name(name: Seq<char>) -> bool {
    ||| text::alike(name, "flatpak"@)
    ||| text::alike(name, "pressure-vessel"@)
    ||| text::alike(name, "proton"@)
    ||| text::alike(name, "steam"@)
    ||| text::alike(name, "wine"@)
    ||| text::alike(name, "wine-preloader"@)
    ||| text::alike(name, "wine64"@)
    ||| text::alike(name, "wine64-preloader"@)
}

/// Whether an executable is a runtime which many games share.
pub open spec fn shared_runtime(executable: Seq<u8>) -> bool {
    match paths::final_name(executable) {
        None => false,
        Some(name) => vstd::utf8::valid_utf8(name) && is_runtime_name(
            vstd::utf8::decode_utf8(name),
        ),
    }
}

pub fn is_shared_runtime(executable: &[u8]) -> (result: bool)
    ensures
        result == shared_runtime(executable@),
{
    match paths::file_name(executable) {
        None => false,
        Some(name) => match text::decode(name.as_slice()) {
            None => false,
            Some(decoded) => {
                let chars = text::chars_of(decoded.as_str());
                let name = chars.as_slice();
                text::eq_ignore_ascii_case(name, "flatpak") || text::eq_ignore_ascii_case(
                    name,
                    "pressure-vessel",
                ) || text::eq_ignore_ascii_case(name, "proton") || text::eq_ignore_ascii_case(
                    name,
                    "steam",
                ) || text::eq_ignore_ascii_case(name, "wine") || text::eq_ignore_ascii_case(
                    name,
                    "wine-preloader",
                ) || text::eq_ignore_ascii_case(name, "wine64") || text::eq_ignore_ascii_case(
                    name,
                    "wine64-preloader",
                )
            },
        },
    }
}

/// Why a running process is not a game of its own.
pub open spec fn process_fault(
    comm: Seq<char>,
    executable: Seq<u8>,
    live_executable: Seq<u8>,
    runs: bool,
) -> Option<&'static str> {
    if !paths::same_place(live_executable, executable) {
        Some("the detected game process executable changed before it could be verified")
    } else if !runs || shared_runtime(executable) {
        Some("the detected process does not expose a unique directly launchable executable")
    } else if !games::is_display_name(text::trimmed(comm)) {
        Some("the detected game name is invalid or too large")
    } else if paths::parent_of(executable) is None {
        Some("the detected executable has no parent directory")
    } else {
        None
    }
}

/// The rules that recognise a running process again.
pub open spec fn process_rules(executable: Seq<u8>, app_id: Option<u32>) -> Seq<RuleView> {
    match app_id {
        None => seq![RuleView::Executable(executable)],
        Some(app_id) => seq![RuleView::Executable(executable), RuleView::SteamAppId(app_id)],
    }
}

/// Makes a game of a running process, whose recorded executable and live
/// executable resolve to the given absolute paths. `runs` says that the
/// executable is a file that can be run.
pub fn candidate_from_process(
    process: &GameProcess,
    executable: &[u8],
    live_executable: &[u8],
    runs: bool,
) -> (result: Result<DiscoveredGame, GameDiscoveryError>)
    requires
        paths::absolute(executable@),
    ensures
        ({
            let fault = process_fault(process.comm@, executable@, live_executable@, runs);
            match result {
                Ok(game) => fault is None && game@ == (GameView {
                    display_name: text::trimmed(process.comm@),
                    install_directory: paths::parent_of(executable@)->0,
                    poster_path: None,
                    launch: Some(
                        LaunchView {
                            executable: executable@,
                            arguments: Seq::empty(),
                            working_directory: paths::parent_of(executable@),
                        },
                    ),
                    match_rules: process_rules(executable@, process.steam_app_id),
                    source: SourceView::RunningProcess { pid: process.pid },
                }),
                Err(error) => fault matches Some(message) && error@ == message@,
            }
        }),
{
    if !paths::is_same_place(live_executable, executable) {
        return Err(
            GameDiscoveryError::new(
                "the detected game process executable changed before it could be verified",
            ),
        );
    }
    if !runs || is_shared_runtime(executable) {
        return Err(
            GameDiscoveryError::new(
                "the detected process does not expose a unique directly launchable executable",
            ),
        );
    }
    let display_name = match games::display_name(process.comm.as_str()) {
        None => {
            return Err(GameDiscoveryError::new("the detected game name is invalid or too large"));
        },
        Some(name) => name,
    };
    let install_directory = match paths::parent(executable) {
        None => {
            return Err(GameDiscoveryError::new("the detected executable has no parent directory"));
        },
        Some(directory) => directory,
    };
    let mut match_rules: Vec<GameMatchRule> = Vec::new();
    match_rules.push(GameMatchRule::Executable(vstd::slice::slice_to_vec(executable)));
    if let Some(app_id) = process.steam_app_id {
        match_rules.push(GameMatchRule::SteamAppId(app_id));
    }
    assert(match_rules@.map_values(|rule: GameMatchRule| rule@) =~= process_rules(
        executable@,
        process.steam_app_id,
    ));
    let working_directory = vstd::slice::slice_to_vec(install_directory.as_slice());
    let arguments: Vec<Vec<u8>> = Vec::new();
    assert(text::byte_views(arguments@) =~= Seq::<Seq<u8>>::empty());
    Ok(
        DiscoveredGame {
            display_name,
            install_directory,
            poster_path: None,
            launch: Some(
                GameLaunchConfig {
                    executable: vstd::slice::slice_to_vec(executable),
                    arguments,
                    working_directory: Some(working_directory),
                },
            ),
            match_rules,
            source: GameDiscoverySource::RunningProcess { pid: process.pid },
        },
    )
}

/// The manifest of an application as Steam writes it.
pub open spec fn written_manifest(
    app_id: u32,
    flags: u64,
    name: Seq<char>,
    directory: Seq<char>,
) -> Seq<(Seq<char>, VdfNode)> {
    let state = Seq::<(Seq<char>, VdfNode)>::empty().push(
        ("appid"@, VdfNode::Text(text::decimal(app_id as nat))),
    ).push(("name"@, VdfNode::Text(name))).push(
        ("StateFlags"@, VdfNode::Text(text::decimal(flags as nat))),
    ).push(("installdir"@, VdfNode::Text(directory)));
    Seq::<(Seq<char>, VdfNode)>::empty().push(("AppState"@, VdfNode::Object(state)))
}

proof fn lemma_values_push(
    entries: Seq<(Seq<char>, VdfNode)>,
    entry: (Seq<char>, VdfNode),
    name: Seq<char>,
)
    ensures
        vdf::values_named(entries.push(entry), name, false) == (if text::alike(entry.0, name) {
            vdf::values_named(entries, name, false).push(entry.1)
        } else {
            vdf::values_named(entries, name, false)
        }),
{
    assert(entries.push(entry).drop_last() =~= entries);
    assert(entries.push(entry).last() == entry);
}

proof fn lemma_manifest_keys()
    ensures
        text::alike("appid"@, "appid"@),
        text::alike("name"@, "name"@),
        text::alike("StateFlags"@, "StateFlags"@),
        text::alike("installdir"@, "installdir"@),
        text::alike("AppState"@, "AppState"@),
        !text::alike("appid"@, "name"@),
        !text::alike("appid"@, "StateFlags"@),
        !text::alike("appid"@, "installdir"@),
        !text::alike("name"@, "appid"@),
        !text::alike("name"@, "StateFlags"@),
        !text::alike("name"@, "installdir"@),
        !text::alike("StateFlags"@, "appid"@),
        !text::alike("StateFlags"@, "name"@),
        !text::alike("StateFlags"@, "installdir"@),
        !text::alike("installdir"@, "appid"@),
        !text::alike("installdir"@, "name"@),
        !text::alike("installdir"@, "StateFlags"@),
{
    reveal_strlit("appid");
    reveal_strlit("name");
    reveal_strlit("StateFlags");
    reveal_strlit("installdir");
    reveal_strlit("AppState");
    text::lemma_alike_length("appid"@, "name"@);
    text::lemma_alike_length("appid"@, "StateFlags"@);
    text::lemma_alike_length("appid"@, "installdir"@);
    text::lemma_alike_length("name"@, "appid"@);
    text::lemma_alike_length("name"@, "StateFlags"@);
    text::lemma_alike_length("name"@, "installdir"@);
    text::lemma_alike_length("StateFlags"@, "appid"@);
    text::lemma_alike_length("StateFlags"@, "name"@);
    text::lemma_alike_length("installdir"@, "appid"@);
    text::lemma_alike_length("installdir"@, "name"@);
    if text::alike("StateFlags"@, "installdir"@) {
        text::lemma_alike_at("StateFlags"@, "installdir"@, 0);
    }
    if text::alike("installdir"@, "StateFlags"@) {
        text::lemma_alike_at("installdir"@, "StateFlags"@, 0);
    }
}

proof fn lemma_first_text_one(value: Seq<char>)
    ensures
        vdf::first_text(Seq::<VdfNode>::empty().push(VdfNode::Text(value))) == Some(value),
{
    let values = Seq::<VdfNode>::empty().push(VdfNode::Text(value));
    assert(values.drop_last() =~= Seq::<VdfNode>::empty());
    assert(vdf::first_text(values.drop_last()) is None);
}

/// The bit that means fully installed is the third of the flags.
proof fn lemma_installed_bit(flags: u64)
    ensures
        flags & 4 != 0 <==> (flags / 4) % 2 == 1,
{
    assert(flags & 4 != 0 <==> (flags / 4) % 2 == 1) by (bit_vector);
}

/// The manifest of a game lists it exactly when the flags say that it is fully
/// installed, whatever else they say: a game that waits for an update stays.
pub proof fn installed_games_are_listed(
    app_id: u32,
    flags: u64,
    name: Seq<char>,
    directory: Seq<char>,
)
    requires
        app_id > 0,
        games::is_display_name(text::trimmed(name)),
        !is_support_tool(text::trimmed(name)),
        vstd::utf8::encode_utf8(directory).len() <= 4096,
        paths::single_name(vstd::utf8::encode_utf8(directory)),
    ensures
        manifest_game(
            "appmanifest_"@ + text::decimal(app_id as nat) + ".acf"@,
            written_manifest(app_id, flags, name, directory),
        ) == (if (flags / 4) % 2 == 1 {
            Some(ManifestView { app_id, name: text::trimmed(name), install_directory: directory })
        } else {
            None
        }),
{
    reveal_strlit("appmanifest_");
    reveal_strlit(".acf");
    let number = text::decimal(app_id as nat);
    let file_name = "appmanifest_"@ + number + ".acf"@;
    text::decimal_round_trip(app_id as nat);
    text::decimal_round_trip(flags as nat);
    let rest = number + ".acf"@;
    assert(file_name.take(12) =~= "appmanifest_"@);
    assert(file_name.skip(12) =~= rest);
    assert(rest.skip(rest.len() - 4) =~= ".acf"@);
    assert(rest.take(rest.len() - 4) =~= number);
    assert(manifest_number(file_name) == Some(app_id));
    lemma_manifest_keys();
    lemma_installed_bit(flags);
    let none = Seq::<(Seq<char>, VdfNode)>::empty();
    let first = ("appid"@, VdfNode::Text(number));
    let second = ("name"@, VdfNode::Text(name));
    let third = ("StateFlags"@, VdfNode::Text(text::decimal(flags as nat)));
    let fourth = ("installdir"@, VdfNode::Text(directory));
    let one = none.push(first);
    let two = one.push(second);
    let three = two.push(third);
    let state = three.push(fourth);
    assert forall|key: Seq<char>| #[trigger] vdf::values_named(none, key, false) == Seq::<
        VdfNode,
    >::empty() by {}
    lemma_values_push(none, first, "appid"@);
    lemma_values_push(one, second, "appid"@);
    lemma_values_push(two, third, "appid"@);
    lemma_values_push(three, fourth, "appid"@);
    lemma_values_push(none, first, "name"@);
    lemma_values_push(one, second, "name"@);
    lemma_values_push(two, third, "name"@);
    lemma_values_push(three, fourth, "name"@);
    lemma_values_push(none, first, "StateFlags"@);
    lemma_values_push(one, second, "StateFlags"@);
    lemma_values_push(two, third, "StateFlags"@);
    lemma_values_push(three, fourth, "StateFlags"@);
    lemma_values_push(none, first, "installdir"@);
    lemma_values_push(one, second, "installdir"@);
    lemma_values_push(two, third, "installdir"@);
    lemma_values_push(three, fourth, "installdir"@);
    lemma_first_text_one(number);
    lemma_first_text_one(name);
    lemma_first_text_one(text::decimal(flags as nat));
    lemma_first_text_one(directory);
    lemma_values_push(none, ("AppState"@, VdfNode::Object(state)), "AppState"@);
    let found = Seq::<VdfNode>::empty().push(VdfNode::Object(state));
    assert(found.drop_last() =~= Seq::<VdfNode>::empty());
    assert(vdf::first_object(found.drop_last()) is None);
    assert(vdf::first_object(found) == Some(state));
    text::lemma_first_digit(app_id as nat);
    text::lemma_first_digit(flags as nat);
}

/// Two states that agree but for flags with the same bit for fully installed
/// give the same game.
pub proof fn other_flags_do_not_matter(
    file_id: u32,
    state: Seq<(Seq<char>, VdfNode)>,
    other: Seq<(Seq<char>, VdfNode)>,
    flags: u64,
    other_flags: u64,
)
    requires
        field(state, "appid"@) == field(other, "appid"@),
        field(state, "name"@) == field(other, "name"@),
        field(state, "installdir"@) == field(other, "installdir"@),
        field(state, "StateFlags"@) == Some(text::decimal(flags as nat)),
        field(other, "StateFlags"@) == Some(text::decimal(other_flags as nat)),
        (flags / 4) % 2 == (other_flags / 4) % 2,
    ensures
        state_game(file_id, state) == state_game(file_id, other),
{
    text::decimal_round_trip(flags as nat);
    text::decimal_round_trip(other_flags as nat);
    text::lemma_first_digit(flags as nat);
    text::lemma_first_digit(other_flags as nat);
    lemma_installed_bit(flags);
    lemma_installed_bit(other_flags);
}

/// A tool of Steam is told by the first words of its name: the tool's own
/// name, alone or with something behind a space, in any case.
pub proof fn tools_are_told_by_their_first_words(tool: Seq<char>, more: Seq<char>)
    requires
        tool == "Proton"@ || tool == "Steam Linux Runtime"@ || tool
            == "Steamworks Common Redistributables"@ || tool == "Steamworks SDK Redist"@,
    ensures
        is_support_tool(tool),
        is_support_tool(tool + " "@ + more),
{
    reveal_strlit(" ");
    let name = tool + " "@ + more;
    assert(name.take(tool.len() as int) =~= tool);
    assert(name[tool.len() as int] == ' ');
    text::lemma_alike_by_place(tool, tool);
    assert(names_tool(tool, tool));
    assert(names_tool(name, tool));
}

/// A game is started through Steam by its number: by the native client, or by
/// Flatpak running Steam.
pub proof fn games_are_started_by_number(app_id: u32)
    ensures
        ({
            let number = vstd::utf8::encode_utf8(text::decimal(app_id as nat));
            &&& launch_arguments(app_id, false) == seq!["-applaunch".spec_bytes(), number]
            &&& launch_arguments(app_id, true) == seq![
                "run".spec_bytes(),
                "com.valvesoftware.Steam".spec_bytes(),
            ] + launch_arguments(app_id, false)
        }),
{
    assert(launch_arguments(app_id, true) =~= seq![
        "run".spec_bytes(),
        "com.valvesoftware.Steam".spec_bytes(),
    ] + launch_arguments(app_id, false));
}

/// A library folder is looked through where it has an absolute path. The others
/// are passed over, and the order stays.
pub proof fn libraries_are_listed_by_path(
    folders: Seq<(Seq<char>, VdfNode)>,
    number: Seq<char>,
    path: Seq<char>,
)
    ensures
        ({
            let folder = seq![("path"@, VdfNode::Text(path))];
            let longer = folders.push((number, VdfNode::Object(folder)));
            library_paths(longer) == if vstd::utf8::encode_utf8(path).len() > 0
                && vstd::utf8::encode_utf8(path)[0] == '/' as u8 {
                library_paths(folders).push(path)
            } else {
                library_paths(folders)
            }
        }),
        library_paths(folders.push((number, VdfNode::Text(path)))) == library_paths(folders),
{
    let folder = seq![("path"@, VdfNode::Text(path))];
    let none = Seq::<(Seq<char>, VdfNode)>::empty();
    assert(folder =~= none.push(("path"@, VdfNode::Text(path))));
    lemma_values_push(none, ("path"@, VdfNode::Text(path)), "path"@);
    text::lemma_alike_by_place("path"@, "path"@);
    assert(vdf::values_named(none, "path"@, false) =~= Seq::<VdfNode>::empty());
    let values = vdf::values_named(folder, "path"@, false);
    assert(values =~= seq![VdfNode::Text(path)]);
    assert(values.drop_last() =~= Seq::<VdfNode>::empty());
    assert(vdf::first_text(values.drop_last()) is None);
    assert(field(folder, "path"@) == Some(path));
    let longer = folders.push((number, VdfNode::Object(folder)));
    assert(longer.drop_last() =~= folders);
    assert(folders.push((number, VdfNode::Text(path))).drop_last() =~= folders);
}

/// A game's artwork lies in Steam's cache: under its number and the picture's
/// name, or below a directory of its number.
pub proof fn artwork_lies_under_the_number(
    cache: Seq<u8>,
    app_id: u32,
    names: Seq<&'static str>,
    index: int,
)
    requires
        0 <= index < names.len(),
    ensures
        ({
            let number = text::decimal(app_id as nat);
            &&& artwork_places(cache, app_id, names, None)[index] == paths::joined(
                cache,
                vstd::utf8::encode_utf8(number + "_"@ + names[index]@),
            )
            &&& artwork_places(cache, app_id, names, Some(Seq::empty()))[names.len() + index]
                == paths::joined(
                paths::joined(cache, vstd::utf8::encode_utf8(number)),
                names[index].spec_bytes(),
            )
        }),
{
    let own = artwork_in(artwork_directory(cache, app_id), names);
    let flat = flat_artwork(cache, app_id, names);
    assert(flat.len() == names.len());
    let all = artwork_places(cache, app_id, names, Some(Seq::empty()));
    assert(artwork_in_each(Seq::empty(), names) =~= Seq::<Seq<u8>>::empty());
    assert(all =~= flat + own);
    assert(all[names.len() + index] == own[index]);
}

/// A runtime that many games share is never taken for one of them, however its
/// name is written, and neither is a process whose program changed.
pub proof fn shared_runtimes_are_no_games(
    comm: Seq<char>,
    executable: Seq<u8>,
    live: Seq<u8>,
    runs: bool,
    name: Seq<char>,
)
    requires
        paths::final_name(executable) == Some(vstd::utf8::encode_utf8(name)),
    ensures
        text::alike(name, "steam"@) || text::alike(name, "flatpak"@) || text::alike(
            name,
            "proton"@,
        ) || text::alike(name, "pressure-vessel"@) || text::alike(name, "wine"@) || text::alike(
            name,
            "wine64"@,
        ) || text::alike(name, "wine-preloader"@) || text::alike(name, "wine64-preloader"@)
            ==> process_fault(comm, executable, live, runs) is Some,
        !paths::same_place(live, executable) ==> process_fault(comm, executable, live, runs)
            is Some,
        !runs ==> process_fault(comm, executable, live, runs) is Some,
{
    vstd::utf8::encode_utf8_decode_utf8(name);
    vstd::utf8::encode_utf8_valid_utf8(name);
}

/// Steam keeps its games in three places below a home directory.
pub proof fn steam_has_three_places(home: Seq<u8>)
    ensures
        artwork_homes(home) == seq![
            paths::joined(home, ".local/share/Steam".spec_bytes()),
            paths::joined(home, ".steam/steam".spec_bytes()),
            paths::joined(
                home,
                ".var/app/com.valvesoftware.Steam/.local/share/Steam".spec_bytes(),
            ),
        ],
{
}

/// How much of Steam's libraries is looked through.
pub proof fn library_scans_are_bounded()
    ensures
        MAX_LIBRARY_FOLDERS == 64,
        MAX_MANIFESTS_PER_LIBRARY == 4 * 1_024,
        MAX_DISCOVERED_GAMES == 512,
        MAX_POSTER_BYTES == 20 * 1_024 * 1_024,
        MAX_POSTER_VARIANTS == 64,
        MAX_VDF_PATH_BYTES == 4 * 1_024,
{
}

/// Posters are looked for as two kinds of pictures, banners as six.
pub proof fn artwork_has_fixed_names()
    ensures
        poster_files() == seq!["library_600x900.jpg", "library_600x900.png"],
        banner_files() == seq![
            "library_hero.jpg",
            "library_hero.png",
            "library_header.jpg",
            "library_header.png",
            "header.jpg",
            "header.png",
        ],
{
}

/// Sixty-four libraries are looked through at most.
pub proof fn a_full_list_of_libraries_stays(
    libraries: Seq<(Seq<u8>, bool)>,
    extras: Seq<(Seq<u8>, ())>,
    is_flatpak: bool,
)
    requires
        libraries.len() == 64,
    ensures
        with_extras(libraries, extras, is_flatpak) == libraries,
{
}

/// A running game is told again by its program, and by its number where Steam
/// started it.
pub proof fn running_games_are_told_again(executable: Seq<u8>, app_id: u32)
    ensures
        process_rules(executable, None) == seq![RuleView::Executable(executable)],
        process_rules(executable, Some(app_id)) == seq![
            RuleView::Executable(executable),
            RuleView::SteamAppId(app_id),
        ],
{
}

} // verus!
