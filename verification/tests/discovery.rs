use redunar::desktop_discovery::{
    add_game, desktop_files, desktop_game, desktop_text, is_safe_path, is_shared_launcher,
    normalize_exec_tokens, read_launch, remaining_files, tokenize_exec, DesktopEntry,
    DesktopGameDiscovery, DesktopLaunch,
};
use redunar::games::{
    display_name, is_executable_file, DiscoveredGame, GameDiscoverySource, GameMatchRule,
    GameProcess,
};
use redunar::path_map::{is_path_before, PathMap};
use redunar::steam_discovery::{
    accepts_image, accepts_install, artwork_candidates, candidate_from_process,
    extra_library_paths, is_shared_runtime, is_steam_support_tool, manifest_app_id,
    manifest_paths, poster_names, read_manifest, steam_game, GameCatalog, LibraryList,
    ManifestGame, SteamGameDiscovery,
};
use redunar::steam_launch_bridge::SteamAppId;
use redunar::steam_launch_options::{
    account_has_exact_launch_options, account_step, check_config_directory, check_resolved_root,
    check_root, check_userdata, is_account_name, is_process_directory, is_steam_process_name,
    judge_process, ordered_paths, persisted_status, process_name, steam_process_state, vdf_reason,
    AccountLaunchOptions, AccountStep, PathKind, ProcessVerdict, SteamLaunchOptionsDetector,
    SteamLaunchOptionsReason, SteamLaunchOptionsStatus, SteamProcessState,
};
use redunar::vdf::{
    check_listed_file, check_opened_file, parse, read_vdf_bytes, VdfFile, VdfObject, VdfReadError,
    MAX_VDF_DEPTH, MAX_VDF_ENTRIES,
};

fn document(text: &str) -> VdfObject {
    parse(text).expect("document")
}

#[test]
fn documents_nest_escape_and_comment() {
    let root = document(
        "// comment\n\"Outer\" { \"Key\" \"a\\\"b\\\\c\" plain { \"x\" \"1\" \"X\" \"2\" } }",
    );
    assert_eq!(root.len(), 1);
    let outer = root.object("outer").expect("outer");
    assert_eq!(outer.text("key"), Some("a\"b\\c"));
    let plain = outer.object("plain").expect("plain");
    assert_eq!(plain.text("x"), Some("1"));
    assert_eq!(plain.unique_text("x"), Err(()));
    assert!(outer.unique_object("plain").expect("one").is_some());
    assert!(root.unique_exact_object("outer").expect("none").is_none());
    assert!(root.unique_exact_object("Outer").expect("one").is_some());
    assert!(root.object_at(0).is_some());
    for malformed in ["\"unterminated", "\"a\" {", "\"a\"", "}", "{}"] {
        assert!(parse(malformed).is_none(), "{malformed}");
    }
}

#[test]
fn documents_are_bounded_regular_files() {
    let listed = VdfFile {
        is_regular: true,
        length: 10,
        device: 1,
        inode: 2,
    };
    assert_eq!(check_listed_file(listed), Ok(()));
    assert_eq!(
        check_listed_file(VdfFile {
            is_regular: false,
            ..listed
        }),
        Err(VdfReadError::UnsafeFile)
    );
    assert_eq!(
        check_listed_file(VdfFile {
            length: u64::MAX,
            ..listed
        }),
        Err(VdfReadError::Oversized)
    );
    assert_eq!(check_opened_file(listed, listed), Ok(()));
    assert_eq!(
        check_opened_file(listed, VdfFile { inode: 3, ..listed }),
        Err(VdfReadError::ChangedDuringOpen)
    );
    assert!(matches!(
        read_vdf_bytes(b"\xff"),
        Err(VdfReadError::InvalidUtf8)
    ));
    assert!(matches!(
        read_vdf_bytes(b"{"),
        Err(VdfReadError::Malformed)
    ));
    assert!(read_vdf_bytes(b"\"a\" \"b\"").is_ok());
}

#[test]
fn documents_are_bounded_in_depth_and_entries() {
    let nested = |depth: usize| format!("{}{}", "a {".repeat(depth), "}".repeat(depth));
    assert!(parse(&nested(MAX_VDF_DEPTH)).is_some());
    assert!(parse(&nested(MAX_VDF_DEPTH + 1)).is_none());
    assert!(parse(&"a b ".repeat(MAX_VDF_ENTRIES)).is_some());
    assert!(parse(&"a b ".repeat(MAX_VDF_ENTRIES + 1)).is_none());
}

fn manifest(app_id: u32, name: &str, install: &str) -> VdfObject {
    document(&format!(
        "\"AppState\"\n{{\n\"appid\" \"{app_id}\"\n\"name\" \"{name}\"\n\"StateFlags\" \"4\"\n\"installdir\" \"{install}\"\n}}\n"
    ))
}

fn manifest_name(app_id: u32) -> String {
    format!("appmanifest_{app_id}.acf")
}

fn discovery() -> SteamGameDiscovery {
    SteamGameDiscovery::with_clients(
        b"/home/player".to_vec(),
        b"/bin/steam".to_vec(),
        b"/bin/flatpak".to_vec(),
    )
}

fn found(manifest: ManifestGame, is_flatpak: bool) -> DiscoveredGame {
    let launch = discovery().launch_config(manifest.app_id, is_flatpak, true);
    steam_game(manifest, b"/games/installed".to_vec(), None, launch)
}

#[test]
fn discovers_arc_raiders_from_flatpak_root_with_typed_launch() {
    let read = read_manifest(
        &manifest_name(1_808_500),
        &manifest(1_808_500, "ARC Raiders", "Arc Raiders"),
    )
    .expect("manifest");
    let game = found(read, true);
    assert_eq!(game.display_name, "ARC Raiders");
    assert_eq!(game.match_rules, vec![GameMatchRule::SteamAppId(1_808_500)]);
    assert_eq!(
        game.launch.as_ref().expect("launch").arguments,
        ["run", "com.valvesoftware.Steam", "-applaunch", "1808500"]
            .map(|argument| argument.as_bytes().to_vec())
    );
    assert!(discovery().launch_config(5, false, false).is_none());
    assert_eq!(
        discovery().roots().expect("roots")[2],
        (
            b"/home/player/.var/app/com.valvesoftware.Steam/.local/share/Steam".to_vec(),
            true
        )
    );
    assert!(SteamGameDiscovery::new(b"relative".to_vec()).roots().is_err());
}

#[test]
fn follows_bounded_extra_library_folder_and_deduplicates_app_ids() {
    let extras = extra_library_paths(&document(
        "\"libraryfolders\" { \"0\" { \"path\" \"/extra-library\" } \"1\" { \"path\" \"relative\" } }",
    ));
    assert_eq!(extras, vec!["/extra-library".to_owned()]);
    let mut libraries = LibraryList::new();
    libraries.add_root(b"/steam".to_vec(), false);
    libraries.add_root(b"/steam".to_vec(), true);
    libraries.add_extras(vec![b"/extra-library".to_vec()], false);
    assert_eq!(
        libraries.libraries(),
        &[
            (b"/extra-library".to_vec(), false),
            (b"/steam".to_vec(), false)
        ]
    );
    let mut catalog = GameCatalog::new();
    for name in ["Extra Game", "Duplicate"] {
        let read = read_manifest(&manifest_name(42), &manifest(42, name, name)).expect("manifest");
        catalog.add(42, found(read, false));
    }
    assert!(!catalog.is_full());
    let games = catalog.into_games();
    assert_eq!(games.len(), 1);
    assert_eq!(games[0].1.display_name, "Extra Game");
    assert_eq!(
        games[0].1.source,
        GameDiscoverySource::Steam { app_id: 42 }
    );
}

#[test]
fn rejects_manifest_path_escape_and_mismatched_identity() {
    let text = |id: u32, install: &str| {
        document(&format!(
            "\"AppState\" {{ \"appid\" \"{id}\" \"name\" \"Escape\" \"StateFlags\" \"4\" \"installdir\" \"{install}\" }}"
        ))
    };
    assert!(read_manifest("appmanifest_7.acf", &text(8, "../outside")).is_none());
    assert!(read_manifest("appmanifest_7.acf", &text(8, "inside")).is_none());
    assert!(read_manifest("appmanifest_7.acf", &text(7, "../outside")).is_none());
    assert!(read_manifest("appmanifest_7.acf", &text(7, "inside")).is_some());
    assert!(accepts_install(b"/steam/common", b"/steam/common/a", true));
    assert!(!accepts_install(b"/steam/common", b"/steam/other", true));
    assert!(!accepts_install(b"/steam/common", b"/steam/common/a", false));
    assert_eq!(manifest_app_id("appmanifest_0.acf"), None);
    assert_eq!(manifest_app_id("appmanifest_+7.acf"), None);
}

#[test]
fn ignores_incomplete_or_uninstalled_manifests() {
    for (app_id, flags) in [(99, "2"), (100, "1")] {
        let text = document(&format!(
            "\"AppState\" {{ \"appid\" \"{app_id}\" \"name\" \"Partial\" \"StateFlags\" \"{flags}\" \"installdir\" \"Partial\" }}"
        ));
        assert!(read_manifest(&manifest_name(app_id), &text).is_none());
    }
}

#[test]
fn excludes_steam_support_tools_from_the_game_catalog() {
    for name in [
        "Proton Experimental",
        "Proton 11.0",
        "Steam Linux Runtime 4.0",
        "Steamworks Common Redistributables",
    ] {
        assert!(is_steam_support_tool(name), "{name}");
        assert!(read_manifest(&manifest_name(1), &manifest(1, name, "tool")).is_none());
    }
    assert!(!is_steam_support_tool("ARC Raiders"));
    assert!(read_manifest(&manifest_name(5), &manifest(5, "ARC Raiders", "Arc Raiders")).is_some());
}

#[test]
fn banner_prefers_nested_hero_and_never_uses_a_portrait() {
    let searches = discovery().local_banner();
    assert_eq!(searches.len(), 18);
    assert_eq!(searches[0].names, vec!["library_hero.jpg"]);
    assert_eq!(
        searches[0].root,
        b"/home/player/.local/share/Steam".to_vec()
    );
    assert_eq!(
        searches[2].root,
        b"/home/player/.var/app/com.valvesoftware.Steam/.local/share/Steam".to_vec()
    );
    assert_eq!(searches[17].names, vec!["header.png"]);
    assert!(searches
        .iter()
        .all(|search| !search.names.iter().any(|name| name.contains("600x900"))));
    let posters = discovery().local_poster();
    assert_eq!(posters.len(), 3);
    assert_eq!(posters[1].names, poster_names());
    assert_eq!(discovery().cached_poster(false).len(), 2);
    assert_eq!(discovery().cached_poster(true)[0].root, posters[2].root);
}

#[test]
fn discovers_local_portrait_art_in_flat_and_app_directories() {
    assert_eq!(
        artwork_candidates(b"/cache", 41, &["library_600x900.jpg"], None),
        vec![b"/cache/41_library_600x900.jpg".to_vec()]
    );
    assert_eq!(
        artwork_candidates(b"/cache", 42, &["library_600x900.png"], Some(&[])),
        vec![
            b"/cache/42_library_600x900.png".to_vec(),
            b"/cache/42/library_600x900.png".to_vec()
        ]
    );
}

#[test]
fn discovers_one_level_nested_local_portrait_art() {
    assert_eq!(
        artwork_candidates(
            b"/cache",
            43,
            &["library_600x900.jpg"],
            Some(&[b"/cache/43/custom".to_vec()])
        )
        .last(),
        Some(&b"/cache/43/custom/library_600x900.jpg".to_vec())
    );
}

#[test]
fn rejects_symlinked_and_oversized_local_portraits() {
    assert!(accepts_image(b"/cache", b"/cache/a.jpg", true, 10));
    assert!(!accepts_image(b"/cache", b"/outside.jpg", true, 10));
    assert!(!accepts_image(b"/cache", b"/cache/a.jpg", false, 10));
    assert!(!accepts_image(b"/cache", b"/cache/a.jpg", true, u64::MAX));
}

#[test]
fn exact_running_process_candidate_rejects_shared_runtime() {
    let process = |comm: &str, executable: &[u8]| GameProcess {
        pid: 91,
        comm: comm.to_owned(),
        executable: executable.to_vec(),
        steam_app_id: Some(9),
        game_mode_active: false,
    };
    let game = b"/bin/native-game";
    let candidate =
        candidate_from_process(&process("Native Game", game), game, game, true).expect("candidate");
    assert_eq!(
        candidate.launch.expect("launch").executable,
        game.to_vec()
    );
    let runtime = b"/bin/flatpak";
    assert!(
        candidate_from_process(&process("WindowsGame.exe", runtime), runtime, runtime, true)
            .is_err()
    );
    assert!(candidate_from_process(&process("Game", game), game, b"/other", true).is_err());
    assert!(candidate_from_process(&process("Game", game), game, game, false).is_err());
    assert!(is_shared_runtime(b"/bin/flatpak"));
    assert!(!is_shared_runtime(game));
}

#[test]
fn manifests_are_listed_in_the_order_of_their_paths() {
    let listed = manifest_paths(&[
        (b"appmanifest_9.acf".to_vec(), true),
        (b"appmanifest_10.acf".to_vec(), true),
        (b"libraryfolders.vdf".to_vec(), true),
        (b"appmanifest_8.acf".to_vec(), false),
    ]);
    let names: Vec<Vec<u8>> = listed
        .into_entries()
        .into_iter()
        .map(|entry| entry.0)
        .collect();
    assert_eq!(
        names,
        vec![
            b"appmanifest_10.acf".to_vec(),
            b"appmanifest_9.acf".to_vec()
        ]
    );
    assert!(is_path_before(b"/a/b", b"/a-b"));
    assert!(!is_path_before(b"/a", b"/a/"));
}

const NATIVE: &str = "[Desktop Entry]\nType=Application\nName=Native Game\nCategories=Game;ActionGame;\nExec=native-game --mode \"fast run\" %F --literal=100%%\n";

fn launch_of(contents: &str) -> Option<DesktopLaunch> {
    read_launch(DesktopEntry::parse(contents)?)
}

fn entry(name: &str, rest: &str) -> String {
    format!("[Desktop Entry]\nType=Application\nName={name}\nCategories=Game;\n{rest}")
}

fn discover(path: &str, contents: &str, binary: &[u8]) -> Option<DiscoveredGame> {
    let launch = launch_of(contents)?;
    desktop_game(path.as_bytes(), launch, binary, true, None, None)
}

#[test]
fn discovers_direct_game_with_shell_free_arguments() {
    let game = discover("/apps/native.desktop", NATIVE, b"/bin/native-game").expect("game");
    assert_eq!(game.display_name, "Native Game");
    let launch = game.launch.as_ref().expect("launch");
    assert_eq!(launch.executable, b"/bin/native-game".to_vec());
    assert_eq!(
        launch.arguments,
        ["--mode", "fast run", "--literal=100%"].map(|argument| argument.as_bytes().to_vec())
    );
    assert_eq!(
        game.source,
        GameDiscoverySource::DesktopEntry {
            path: b"/apps/native.desktop".to_vec()
        }
    );
}

#[test]
fn ignores_non_games_hidden_entries_and_shared_launchers() {
    assert!(launch_of(
        "[Desktop Entry]\nType=Application\nName=Editor\nCategories=Utility;\nExec=editor\n"
    )
    .is_none());
    assert!(launch_of(&entry("Hidden Game", "Hidden=true\nExec=native-game\n")).is_none());
    for (name, program) in [
        ("Store Game", "steam"),
        ("Steam", "bin_steam.sh"),
        ("Redunar", "redunar-tauri"),
        ("Redunar Tauri", "redunar-tauri"),
    ] {
        let binary = format!("/bin/{program}");
        assert!(is_shared_launcher(binary.as_bytes()));
        assert!(discover(
            "/apps/x.desktop",
            &entry(name, &format!("Exec={program}\n")),
            binary.as_bytes()
        )
        .is_none());
    }
    assert!(!is_shared_launcher(b"/bin/native-game"));
}

#[test]
fn rejects_shell_syntax_fields_and_unusable_working_directories() {
    assert!(launch_of(&entry("Field Game", "Exec=native-game %c\n")).is_none());
    assert!(discover(
        "/apps/shell.desktop",
        &entry("Shell Game", "Exec=sh -c native-game\n"),
        b"/bin/sh"
    )
    .is_none());
    let path = launch_of(&entry("Path Game", "Path=relative/path\nExec=native-game\n"));
    assert!(path.is_none() || !is_safe_path(b"relative/path"));
}

#[test]
fn earlier_xdg_root_wins_for_duplicate_executables() {
    let mut games: PathMap<DiscoveredGame> = PathMap::new();
    for (path, name) in [
        ("/user/user.desktop", "User Name"),
        ("/system/system.desktop", "System Name"),
    ] {
        let game = discover(path, &entry(name, "Exec=native-game\n"), b"/bin/native-game")
            .expect("game");
        add_game(&mut games, game);
    }
    let games = games.into_entries();
    assert_eq!(games.len(), 1);
    assert_eq!(games[0].1.display_name, "User Name");
}

fn words(command: &str) -> Option<Vec<String>> {
    let tokens = tokenize_exec(command)?;
    let words = normalize_exec_tokens(&tokens)?;
    Some(
        words
            .into_iter()
            .map(|word| word.into_iter().collect())
            .collect(),
    )
}

#[test]
fn commands_are_split_without_a_shell() {
    assert_eq!(
        words("game \"a b\" \"q\\\"q\" %U x%%y"),
        Some(vec![
            "game".to_owned(),
            "a b".to_owned(),
            "q\"q".to_owned(),
            "x%y".to_owned()
        ])
    );
    assert_eq!(words("game \"open"), None);
    assert_eq!(words(""), None);
    assert_eq!(words("game %c"), None);
}

#[test]
fn desktop_searches_follow_the_environment() {
    let search = DesktopGameDiscovery::from_environment(
        b"/home/player",
        None,
        Some(b"/usr/share"),
        Some(b"/usr/bin"),
    );
    assert_eq!(
        search.application_directories()[0],
        b"/home/player/.local/share/applications".to_vec()
    );
    assert!(search.check_directories().is_ok());
    assert!(
        DesktopGameDiscovery::new(vec![b"relative".to_vec()], Vec::new())
            .check_directories()
            .is_err()
    );
    let search = DesktopGameDiscovery::from_environment(
        b"/home/player",
        Some(b"relative"),
        Some(b"share:/opt/share::"),
        Some(b":bin:/usr/bin"),
    );
    assert_eq!(
        search.application_directories(),
        &[
            b"/home/player/.local/share/applications".to_vec(),
            b"/opt/share/applications".to_vec(),
        ]
    );
    assert_eq!(
        search.executable_candidates(b"game"),
        vec![b"/usr/bin/game".to_vec()]
    );
    let search = DesktopGameDiscovery::new(Vec::new(), vec![b"/a".to_vec(), b"/b".to_vec()]);
    assert_eq!(
        search.executable_candidates(b"game"),
        vec![b"/a/game".to_vec(), b"/b/game".to_vec()]
    );
    assert_eq!(
        search.executable_candidates(b"/opt/game"),
        vec![b"/opt/game".to_vec()]
    );
    assert!(search.executable_candidates(b"bin/game").is_empty());
    let mut long = b"/".to_vec();
    long.resize(4_096, b'a');
    assert_eq!(search.executable_candidates(&long), vec![long.clone()]);
    long.push(b'a');
    assert!(search.executable_candidates(&long).is_empty());
    let files: Vec<Vec<u8>> = desktop_files(&[
        b"/a/z.desktop".to_vec(),
        b"/a/b.txt".to_vec(),
        b"/a/b.desktop".to_vec(),
    ])
    .into_entries()
    .into_iter()
    .map(|file| file.0)
    .collect();
    assert_eq!(
        files,
        vec![b"/a/b.desktop".to_vec(), b"/a/z.desktop".to_vec()]
    );
    assert_eq!(remaining_files(usize::MAX), 0);
    assert_eq!(desktop_text(b"\xff"), None);
    assert_eq!(desktop_text(b"ok"), Some("ok".to_owned()));
    assert_eq!(display_name("  A game "), Some("A game".to_owned()));
    assert_eq!(display_name(" "), None);
    assert!(is_executable_file(true, 0o100));
    assert!(!is_executable_file(true, 0o644));
}

const APP_ID: u32 = 1_808_500;

const EXPECTED: &str = "/usr/bin/redunar-steam-launch --app-id 1808500 -- %command%";

fn account(app_id: u32, options: &str) -> VdfObject {
    document(&format!(
        "\"UserLocalConfigStore\" {{ \"Software\" {{ \"Valve\" {{ \"Steam\" {{ \"apps\" {{ \"{app_id}\" {{ {options} }} }} }} }} }} }}"
    ))
}

fn options(value: &str) -> String {
    format!("\"LaunchOptions\" \"{value}\"")
}

fn judged(document: VdfObject) -> Result<AccountLaunchOptions, SteamLaunchOptionsReason> {
    account_has_exact_launch_options(
        Ok(Some(document)),
        SteamAppId::new(APP_ID).expect("app ID"),
        EXPECTED,
    )
}

fn status_of(
    accounts: &[Result<AccountLaunchOptions, SteamLaunchOptionsReason>],
) -> SteamLaunchOptionsStatus {
    SteamLaunchOptionsDetector::new(b"/home/player".to_vec()).status(
        EXPECTED,
        persisted_status(1, accounts),
        Ok(SteamProcessState::Stopped),
    )
}

#[test]
fn requires_exact_app_and_complete_launch_options_value() {
    assert_eq!(
        status_of(&[judged(account(APP_ID, &options(EXPECTED)))]),
        SteamLaunchOptionsStatus::Configured
    );
    assert_eq!(
        status_of(&[judged(account(
            APP_ID,
            &options("env REDUNAR_HINT=/usr/bin/redunar-steam-launch --app-id 1808500 -- %command%")
        ))]),
        SteamLaunchOptionsStatus::NotConfigured
    );
    assert_eq!(
        status_of(&[judged(account(APP_ID + 1, &options(EXPECTED)))]),
        SteamLaunchOptionsStatus::NotConfigured
    );
}

#[test]
fn accepts_bounded_large_unrelated_steam_cache_values() {
    let large_cache = "x".repeat(18_500);
    let config = document(&format!(
        "\"UserLocalConfigStore\" {{ \"LargeCache\" \"{large_cache}\" \"Software\" {{ \"Valve\" {{ \"Steam\" {{ \"apps\" {{ \"{APP_ID}\" {{ \"LaunchOptions\" \"{EXPECTED}\" }} }} }} }} }} }}"
    ));
    assert_eq!(
        status_of(&[judged(config)]),
        SteamLaunchOptionsStatus::Configured
    );
}

#[test]
fn treats_disagreeing_accounts_and_duplicate_entries_as_ambiguous() {
    assert_eq!(
        status_of(&[
            judged(account(APP_ID, &options(EXPECTED))),
            judged(account(APP_ID, &options("MANGOHUD=1 %command%")))
        ]),
        SteamLaunchOptionsStatus::Ambiguous(SteamLaunchOptionsReason::MultipleAccountsDisagree)
    );
    let twice = format!("{} {}", options(EXPECTED), options("%command%"));
    assert_eq!(
        status_of(&[judged(account(APP_ID, &twice))]),
        SteamLaunchOptionsStatus::Ambiguous(
            SteamLaunchOptionsReason::DuplicateConfigurationEntries
        )
    );
}

#[test]
fn rejects_malformed_oversized_and_symlinked_configuration_files() {
    for (error, reason) in [
        (
            VdfReadError::Malformed,
            SteamLaunchOptionsReason::ConfigurationMalformed,
        ),
        (
            VdfReadError::Oversized,
            SteamLaunchOptionsReason::ConfigurationTooLarge,
        ),
        (
            VdfReadError::UnsafeFile,
            SteamLaunchOptionsReason::ConfigurationUnsafe,
        ),
    ] {
        assert_eq!(vdf_reason(error), reason);
        assert_eq!(
            status_of(&[Err(reason)]),
            SteamLaunchOptionsStatus::Unavailable(reason)
        );
    }
    assert!(read_vdf_bytes(b"\"unterminated").is_err());
}

#[test]
fn exact_configuration_is_usable_while_steam_is_running() {
    let detector = SteamLaunchOptionsDetector::new(b"/home/player".to_vec());
    let stored = persisted_status(1, &[judged(account(APP_ID, &options(EXPECTED)))]);
    assert!(is_steam_process_name("steam"));
    assert_eq!(process_name(b"steam\n").as_deref(), Some("steam"));
    assert_eq!(
        detector.status(EXPECTED, stored, Ok(SteamProcessState::Running)),
        SteamLaunchOptionsStatus::Configured
    );
    assert_eq!(
        detector.status(
            EXPECTED,
            Ok(SteamLaunchOptionsStatus::NotConfigured),
            Ok(SteamProcessState::Running)
        ),
        SteamLaunchOptionsStatus::Ambiguous(SteamLaunchOptionsReason::SteamRunning)
    );
    assert_eq!(
        detector.status("", stored, Ok(SteamProcessState::Stopped)),
        SteamLaunchOptionsStatus::Unavailable(SteamLaunchOptionsReason::ExpectedValueInvalid)
    );
}

#[test]
fn missing_app_entry_is_not_configured_but_missing_native_steam_is_unavailable() {
    assert_eq!(
        status_of(&[judged(account(APP_ID + 1, &options(EXPECTED)))]),
        SteamLaunchOptionsStatus::NotConfigured
    );
    assert_eq!(
        persisted_status(0, &[]),
        Err(SteamLaunchOptionsReason::NativeSteamNotFound)
    );
}

#[test]
fn status_display_is_user_facing_and_keeps_reason_text() {
    assert_eq!(
        SteamLaunchOptionsStatus::Configured.message(),
        "Configured"
    );
    assert_eq!(
        SteamLaunchOptionsStatus::NotConfigured.message(),
        "Not configured"
    );
    assert_eq!(
        SteamLaunchOptionsStatus::Ambiguous(SteamLaunchOptionsReason::SteamRunning).message(),
        "Needs attention: Steam is running, so its in-memory Launch Options may differ from the saved file"
    );
    assert_eq!(
        SteamLaunchOptionsStatus::Unavailable(SteamLaunchOptionsReason::NativeSteamNotFound)
            .message(),
        "Unavailable: A native Steam installation was not found"
    );
}

#[test]
fn steam_directories_and_accounts_are_checked() {
    let detector = SteamLaunchOptionsDetector::new(b"/home/player".to_vec());
    assert_eq!(
        detector.candidate_roots().expect("roots"),
        vec![
            b"/home/player/.local/share/Steam".to_vec(),
            b"/home/player/.steam/steam".to_vec()
        ]
    );
    assert_eq!(
        SteamLaunchOptionsDetector::new(b"relative".to_vec()).candidate_roots(),
        Err(SteamLaunchOptionsReason::HomeDirectoryUnavailable)
    );
    assert!(is_account_name("1001"));
    assert!(!is_account_name("anonymous"));
    assert!(is_process_directory("12"));
    assert!(!is_process_directory("self"));
    assert!(check_resolved_root(b"/home/player/steam", b"/home/player", true).is_ok());
    assert!(check_resolved_root(b"/outside", b"/home/player", true).is_err());
    assert_eq!(
        ordered_paths(&[b"/b".to_vec(), b"/a".to_vec(), b"/b".to_vec()]).len(),
        2
    );
    assert_eq!(check_root(PathKind::SymbolicLink), Ok(true));
    assert_eq!(
        check_root(PathKind::Other),
        Err(SteamLaunchOptionsReason::SteamDataUnsafe)
    );
    assert_eq!(check_userdata(PathKind::Absent), Ok(false));
    assert_eq!(
        check_userdata(PathKind::SymbolicLink),
        Err(SteamLaunchOptionsReason::SteamDataUnsafe)
    );
    assert_eq!(check_config_directory(PathKind::Absent), Ok(()));
    assert_eq!(
        check_config_directory(PathKind::Unreadable),
        Err(SteamLaunchOptionsReason::SteamDataUnreadable)
    );
    assert_eq!(
        account_step(0, Some("1001"), true, 0),
        Ok(AccountStep::Inspect)
    );
    assert_eq!(
        account_step(0, Some("ac"), true, 0),
        Ok(AccountStep::Skip)
    );
    assert_eq!(
        account_step(0, Some("1001"), false, 0),
        Err(SteamLaunchOptionsReason::SteamDataUnsafe)
    );
    assert_eq!(
        judge_process(None, Some(b"steam"), true),
        ProcessVerdict::SteamClient
    );
    assert_eq!(judge_process(None, None, true), ProcessVerdict::Unknown);
    assert_eq!(
        steam_process_state(&[ProcessVerdict::Other], false),
        Ok(SteamProcessState::Stopped)
    );
    assert_eq!(
        steam_process_state(&[ProcessVerdict::SteamClient], false),
        Ok(SteamProcessState::Running)
    );
    assert!(steam_process_state(&[ProcessVerdict::Unknown], false).is_err());
    assert!(steam_process_state(&[], true).is_err());
}
