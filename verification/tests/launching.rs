use redunar::capture_session::CaptureSessionId;
use redunar::environment::Environment;
use redunar::launch::{
    capture_launch_support, game_launch_process_ownership, join_colon_list, json_escape,
    layer_manifest,
    supports_host_capture_launch, supports_host_explicit_layer_launch, CaptureLaunchPlan,
    CaptureLaunchSupport, CaptureLaunchUnavailableReason, GameLaunchProcessOwnership,
    OverlayLaunchConfig, ReplayTransferLaunchConfig, REDUNAR_OVERLAY_BRANDING_ENV,
    REDUNAR_OVERLAY_CORNER_ENV, REDUNAR_OVERLAY_LAYOUT_ENV, REDUNAR_OVERLAY_METRICS_ENV,
    REDUNAR_OVERLAY_OPACITY_ENV, REDUNAR_OVERLAY_PALETTE_ENV, REDUNAR_OVERLAY_PRESET_ENV,
    REDUNAR_OVERLAY_TELEMETRY_ENV, REDUNAR_OVERLAY_VISIBLE_ENV, REDUNAR_REPLAY_FRAME_RATE_ENV,
    REDUNAR_REPLAY_PRODUCTION_ENV, REDUNAR_REPLAY_TRANSFER_ENV, VULKAN_CAPTURE_LAYER_NAME,
};
use redunar::overlay::{
    OverlayCorner, OverlayDefaults, OverlayLayout, OverlayPalette, OverlayPreset,
};
use redunar::replay_settings::ReplayFrameRate;
use redunar::steam_activation::{
    broker_action, broker_answer, broker_goes_on, check_message_length, check_socket_directory,
    check_socket_owner, handle_request_bytes, socket_parent, socket_step,
    steam_broker_socket_path, wrapper_updates, AcceptOutcome, BrokerAction,
    PendingActivationStore, PendingSteamActivation, SocketPlace, SocketStep,
    SteamActivationState, WrapperNotice,
};
use redunar::steam_launch_bridge::{
    decode_request, decode_response, encode_denied, encode_granted, encode_request, OverlayRules,
    SteamActivationError, SteamAppId, SteamCaptureEnvironment, DEFAULT_STEAM_ACTIVATION_TTL,
    MAX_STEAM_ACTIVATION_TTL,
};
use redunar::steam_wrapper::{command_line, launch_vehicle, Invocation, LaunchVehicle};

const PROTOCOL: u16 = 3;

const DEFAULTS: OverlayDefaults = OverlayDefaults {
    layout: OverlayLayout::Grid,
    palette: OverlayPalette::Redunar,
    opacity_percent: 90,
    metric_bits: 7,
};

const RULES: OverlayRules = OverlayRules {
    minimum_opacity_percent: 20,
    maximum_opacity_percent: 100,
    known_metrics: 0x0fff,
};

fn session_id(byte: u8) -> CaptureSessionId {
    CaptureSessionId::new([byte; 16]).expect("session id")
}

fn inherited(entries: &[(&str, &[u8])]) -> Environment {
    let mut environment = Environment::new();
    for (name, value) in entries {
        environment.insert(name.as_bytes().to_vec(), value.to_vec());
    }
    environment
}

fn plan_for(
    executable: &str,
    arguments: &[&str],
    environment: &Environment,
) -> Result<CaptureLaunchPlan, redunar::launch::CaptureLaunchError> {
    CaptureLaunchPlan::new(
        executable.as_bytes().to_vec(),
        arguments
            .iter()
            .map(|argument| argument.as_bytes().to_vec())
            .collect(),
        b"/opt/redunar/layers".to_vec(),
        b"/run/user/1000/redunar/capture.sock".to_vec(),
        session_id(9),
        PROTOCOL,
        environment,
    )
}

fn base_plan() -> CaptureLaunchPlan {
    plan_for("/usr/bin/game", &[], &Environment::new()).expect("launch plan")
}

fn value<'a>(environment: &'a Environment, name: &str) -> Option<&'a [u8]> {
    environment.get(name.as_bytes())
}

#[test]
fn launch_plan_preserves_literal_arguments_and_scopes_capture_to_child() {
    let environment = inherited(&[
        ("VK_INSTANCE_LAYERS", b"VK_LAYER_EXISTING_overlay"),
        ("VK_ADD_LAYER_PATH", b"/opt/existing/layers"),
        (REDUNAR_OVERLAY_VISIBLE_ENV, b"untrusted-inherited-value"),
    ]);
    let argument = "$(touch /tmp/redunar-must-not-execute)";
    let plan = plan_for("/usr/bin/game", &[argument], &environment)
        .expect("launch plan")
        .with_working_directory(Some(b"/games/example".to_vec()))
        .expect("working directory")
        .with_overlay_config(OverlayLaunchConfig::new(true, DEFAULTS).with_customization(
            OverlayPreset::FpsOnly,
            OverlayCorner::BottomRight,
            50,
        ))
        .with_overlay_telemetry_path(b"/run/user/1000/redunar/overlay-telemetry-v1.bin")
        .expect("overlay telemetry path");

    assert_eq!(plan.executable(), b"/usr/bin/game");
    assert_eq!(plan.arguments(), &[argument.as_bytes().to_vec()]);
    assert_eq!(plan.working_directory(), Some(&b"/games/example"[..]));
    assert_eq!(
        value(plan.environment(), "VK_INSTANCE_LAYERS"),
        Some(&b"VK_LAYER_EXISTING_overlay:VK_LAYER_REDUNAR_capture"[..])
    );
    assert_eq!(
        value(plan.environment(), "VK_ADD_LAYER_PATH"),
        Some(&b"/opt/redunar/layers:/opt/existing/layers"[..])
    );
    assert_eq!(
        plan.existing_vulkan_layers(),
        &[b"VK_LAYER_EXISTING_overlay".to_vec()]
    );
    for (name, expected) in [
        (REDUNAR_OVERLAY_VISIBLE_ENV, &b"1"[..]),
        (REDUNAR_OVERLAY_PRESET_ENV, b"fps-only"),
        (REDUNAR_OVERLAY_CORNER_ENV, b"bottom-right"),
        (REDUNAR_OVERLAY_OPACITY_ENV, b"50"),
        (REDUNAR_OVERLAY_METRICS_ENV, b"7"),
        (
            REDUNAR_OVERLAY_TELEMETRY_ENV,
            b"/run/user/1000/redunar/overlay-telemetry-v1.bin",
        ),
        (
            "REDUNAR_CAPTURE_SESSION",
            b"09090909090909090909090909090909",
        ),
        ("REDUNAR_CAPTURE_PROTOCOL", b"3"),
    ] {
        assert_eq!(value(plan.environment(), name), Some(expected), "{name}");
    }
    assert_eq!(
        value(&environment, REDUNAR_OVERLAY_VISIBLE_ENV),
        Some(&b"untrusted-inherited-value"[..])
    );
}

#[test]
fn overlay_style_has_exact_child_environment_tokens() {
    let plan = base_plan().with_overlay_config(
        OverlayLaunchConfig::new(true, DEFAULTS)
            .with_style(OverlayLayout::Ribbon, OverlayPalette::Mint)
            .with_branding(false),
    );
    assert_eq!(
        value(plan.environment(), REDUNAR_OVERLAY_LAYOUT_ENV),
        Some(&b"ribbon"[..])
    );
    assert_eq!(
        value(plan.environment(), REDUNAR_OVERLAY_PALETTE_ENV),
        Some(&b"mint"[..])
    );
    assert_eq!(
        value(plan.environment(), REDUNAR_OVERLAY_BRANDING_ENV),
        Some(&b"0"[..])
    );
}

const CORNERS: [(OverlayCorner, &str); 4] = [
    (OverlayCorner::TopLeft, "top-left"),
    (OverlayCorner::TopRight, "top-right"),
    (OverlayCorner::BottomLeft, "bottom-left"),
    (OverlayCorner::BottomRight, "bottom-right"),
];

#[test]
fn every_overlay_corner_has_an_exact_child_environment_token() {
    for (corner, expected) in CORNERS {
        let plan = base_plan().with_overlay_config(
            OverlayLaunchConfig::new(true, DEFAULTS).with_customization(
                OverlayPreset::Compact,
                corner,
                90,
            ),
        );
        assert_eq!(
            value(plan.environment(), REDUNAR_OVERLAY_CORNER_ENV),
            Some(expected.as_bytes())
        );
    }
}

#[test]
fn overlay_launch_configuration_is_bounded_and_explicit_when_hidden() {
    let plan = base_plan().with_overlay_config(OverlayLaunchConfig::new(false, DEFAULTS));
    assert_eq!(
        value(plan.environment(), REDUNAR_OVERLAY_VISIBLE_ENV),
        Some(&b"0"[..])
    );
}

#[test]
fn replay_transfer_configuration_is_child_only_and_closed() {
    let environment = inherited(&[
        (REDUNAR_REPLAY_TRANSFER_ENV, b"1"),
        (REDUNAR_REPLAY_FRAME_RATE_ENV, b"999"),
    ]);
    let plan = plan_for("/usr/bin/game", &[], &environment).expect("launch plan");
    assert_eq!(
        value(plan.environment(), REDUNAR_REPLAY_TRANSFER_ENV),
        Some(&b"0"[..])
    );
    assert_eq!(
        value(plan.environment(), REDUNAR_REPLAY_PRODUCTION_ENV),
        Some(&b"0"[..])
    );
    assert_eq!(
        value(plan.environment(), REDUNAR_REPLAY_FRAME_RATE_ENV),
        Some(&b"60"[..])
    );
    let requested = plan.with_replay_transfer_config(ReplayTransferLaunchConfig::new(
        true,
        ReplayFrameRate::Fps30,
    ));
    assert_eq!(
        value(requested.environment(), REDUNAR_REPLAY_TRANSFER_ENV),
        Some(&b"1"[..])
    );
    assert_eq!(
        value(requested.environment(), REDUNAR_REPLAY_PRODUCTION_ENV),
        Some(&b"1"[..])
    );
    assert_eq!(
        value(requested.environment(), REDUNAR_REPLAY_FRAME_RATE_ENV),
        Some(&b"30"[..])
    );
    assert_eq!(
        value(&environment, REDUNAR_REPLAY_TRANSFER_ENV),
        Some(&b"1"[..])
    );
}

#[test]
fn opengl_capture_preload_is_child_only_and_preserves_existing_entries() {
    let environment = inherited(&[(
        "LD_PRELOAD",
        b"/opt/other/first.so:/opt/other/second.so",
    )]);
    let plan = plan_for("/usr/bin/game", &[], &environment)
        .expect("launch plan")
        .with_opengl_capture_library(b"/opt/redunar/libredunar_capture_opengl.so", &environment)
        .expect("OpenGL preload");
    assert_eq!(
        value(plan.environment(), "LD_PRELOAD"),
        Some(
            &b"/opt/redunar/libredunar_capture_opengl.so:/opt/other/first.so:/opt/other/second.so"
                [..]
        )
    );
    assert!(!plan.environment().contains(b"SDL_DYNAMIC_API"));
    assert_eq!(
        value(&environment, "LD_PRELOAD"),
        Some(&b"/opt/other/first.so:/opt/other/second.so"[..])
    );
}

#[test]
fn overlay_telemetry_path_must_be_absolute() {
    assert!(base_plan()
        .with_overlay_telemetry_path(b"relative/telemetry.bin")
        .is_err());
}

#[test]
fn launch_plan_rejects_ambiguous_or_relative_configuration() {
    let empty = Environment::new();
    assert!(plan_for("relative-game", &[], &empty).is_err());
    assert!(base_plan()
        .with_working_directory(Some(b"relative-directory".to_vec()))
        .is_err());
    let conflict = inherited(&[("VK_LAYER_PATH", b"/custom/layers")]);
    assert!(plan_for("/usr/bin/game", &[], &conflict)
        .expect_err("layer path conflict")
        .message()
        .contains("will not silently override"));
    assert!(plan_for("/usr/bin/ga\0me", &[], &empty).is_err());
    assert!(plan_for("/usr/bin/game", &["a\0b"], &empty).is_err());
}

#[test]
fn flatpak_launches_cannot_claim_host_layer_capture_support() {
    assert!(!supports_host_explicit_layer_launch(b"/usr/bin/flatpak"));
    assert!(!supports_host_explicit_layer_launch(b"/usr/bin/FLATPAK"));
    assert!(supports_host_explicit_layer_launch(b"/games/native-game"));
    let error = plan_for(
        "/usr/bin/flatpak",
        &["run", "example.Game"],
        &Environment::new(),
    )
    .expect_err("host capture paths must not be forwarded into Flatpak");
    assert!(error.message().contains("launch without metrics or overlay"));
}

#[test]
fn forwarded_steam_launches_report_a_typed_capture_boundary() {
    let executable = b"/usr/lib/steam/bin_steam.sh";
    let arguments = [b"-applaunch".to_vec(), b"1808500".to_vec()];
    assert_eq!(
        game_launch_process_ownership(executable, &arguments),
        GameLaunchProcessOwnership::ForwardedSteam {
            app_id: Some(1_808_500)
        }
    );
    assert_eq!(
        capture_launch_support(executable, &arguments),
        CaptureLaunchSupport::Unavailable(CaptureLaunchUnavailableReason::SteamForwarding)
    );
    assert!(CaptureLaunchUnavailableReason::SteamForwarding
        .message()
        .contains("already running"));
    assert!(!supports_host_capture_launch(executable, &arguments));
    let error = plan_for(
        "/usr/lib/steam/bin_steam.sh",
        &["-applaunch", "1808500"],
        &Environment::new(),
    )
    .expect_err("a forwarded command cannot carry the private environment");
    assert!(error.message().contains("Steam forwarding"));
    assert!(error.message().contains("launch without metrics"));
}

#[test]
fn direct_executables_remain_capture_capable_and_child_owned() {
    let executable = b"/games/native-game";
    let arguments = [b"--safe-mode".to_vec()];
    assert_eq!(
        capture_launch_support(executable, &arguments),
        CaptureLaunchSupport::Supported
    );
    assert_eq!(
        game_launch_process_ownership(executable, &arguments),
        GameLaunchProcessOwnership::DirectChild
    );
    assert_eq!(CaptureLaunchSupport::Supported.reason(), None);
}

#[test]
fn manifest_is_private_session_scoped_and_points_to_exact_library() {
    let contents = layer_manifest(
        b"/tmp/session",
        b"/tmp/libredunar_capture_vulkan.so",
        true,
    )
    .expect("prepare manifest");
    assert!(contents.contains("/tmp/libredunar_capture_vulkan.so"));
    assert!(contents.contains(VULKAN_CAPTURE_LAYER_NAME));
    assert!(contents.contains("\"api_version\": \"1.0.0\""));
    assert!(layer_manifest(b"/tmp/session", b"/tmp/x.so", false).is_err());
    assert!(layer_manifest(b"session", b"/tmp/x.so", true).is_err());
    assert!(layer_manifest(b"/tmp/session", b"/tmp/\xff.so", true).is_err());
    assert_eq!(json_escape("a\"b\\c\n\u{1}"), "a\\\"b\\\\c\\n\\u0001");
}

#[test]
fn existing_layers_are_read_as_text_and_sessions_as_hex() {
    let environment = inherited(&[("VK_INSTANCE_LAYERS", b"VK_\xff")]);
    let plan = plan_for("/usr/bin/game", &[], &environment).expect("launch plan");
    assert_eq!(
        value(plan.environment(), "VK_INSTANCE_LAYERS"),
        Some("VK_\u{fffd}:VK_LAYER_REDUNAR_capture".as_bytes())
    );
    assert_eq!(
        join_colon_list(&[b"a".to_vec(), b"\xff".to_vec()]),
        "a:\u{fffd}".as_bytes().to_vec()
    );
    assert!(CaptureSessionId::new([0; 16]).is_none());
    assert_eq!(
        session_id(0xa5).to_hex(),
        "a5a5a5a5a5a5a5a5a5a5a5a5a5a5a5a5"
    );
}

fn app_id() -> SteamAppId {
    SteamAppId::new(1_808_500).expect("non-zero app ID")
}

fn environment_in(layers: &[u8]) -> SteamCaptureEnvironment {
    SteamCaptureEnvironment::new(
        layers.to_vec(),
        b"/run/user/1000/redunar/capture/capture.sock".to_vec(),
        b"/run/user/1000/redunar/capture/capture-reply.sock".to_vec(),
        session_id(7),
        DEFAULTS,
    )
    .expect("capture environment")
    .with_opengl_library(b"/run/user/1000/redunar/capture/libredunar_capture_opengl.so".to_vec())
    .expect("OpenGL library")
    .with_overlay(
        true,
        OverlayPreset::Detailed,
        OverlayCorner::BottomRight,
        75,
        0x00ff,
    )
    .with_overlay_style(OverlayLayout::Telemetry, OverlayPalette::Amethyst)
    .with_overlay_branding(false)
    .with_overlay_telemetry_path(b"/run/user/1000/redunar/capture/overlay.bin".to_vec())
    .expect("telemetry path")
    .with_replay_requested(true)
    .with_replay_frame_rate(ReplayFrameRate::Fps30)
}

fn environment() -> SteamCaptureEnvironment {
    environment_in(b"/run/user/1000/redunar/capture/layers")
}

const SECOND: u64 = 1_000_000_000;

fn store_at(now: u64, ttl: u64, uid: u32) -> PendingActivationStore {
    PendingActivationStore::new(
        PendingSteamActivation::new(app_id(), uid, environment(), now, ttl)
            .expect("pending activation"),
    )
}

#[test]
fn wrong_app_and_uid_do_not_consume_pending_activation() {
    let now = 100 * SECOND;
    let mut store = store_at(now, 30 * SECOND, 1_000);
    let wrong_app = SteamAppId::new(12).expect("app ID");
    assert!(store.claim(wrong_app, 1_000, now).is_none());
    assert!(store.claim(app_id(), 1_001, now).is_none());
    assert!(store.claim(app_id(), 1_000, now).is_some());
}

#[test]
fn expired_activation_is_rejected_deterministically() {
    let now = 100 * SECOND;
    let mut store = store_at(now, 2 * SECOND, 1_000);
    assert!(store.claim(app_id(), 1_000, now + 2 * SECOND).is_none());
    assert!(store.claim(app_id(), 1_000, now).is_none());
}

#[test]
fn activation_can_be_claimed_only_once() {
    let now = 100 * SECOND;
    let mut store = store_at(now, 30 * SECOND, 1_000);
    assert_eq!(store.state(now), SteamActivationState::Pending);
    assert_eq!(store.state(now + 30 * SECOND), SteamActivationState::Expired);
    assert!(store.claim(app_id(), 1_000, now).is_some());
    assert!(store.claim(app_id(), 1_000, now).is_none());
    assert!(matches!(
        store.state(now),
        SteamActivationState::Claimed { elapsed: 0 }
    ));
}

#[test]
fn fixed_wire_round_trip_preserves_non_utf8_paths() {
    let sent = environment_in(b"/layers/\xff");
    let encoded = encode_granted(&sent);
    let decoded = decode_response(&encoded, RULES)
        .expect("decode activation")
        .expect("granted activation");
    assert_eq!(encode_granted(&decoded), encoded);
    let updates = decoded
        .environment_updates(PROTOCOL, &Environment::new())
        .expect("expand child environment");
    assert_eq!(
        value(&updates, REDUNAR_OVERLAY_LAYOUT_ENV),
        Some(&b"telemetry"[..])
    );
    assert_eq!(
        value(&updates, REDUNAR_OVERLAY_PALETTE_ENV),
        Some(&b"amethyst"[..])
    );
    assert_eq!(
        value(&updates, REDUNAR_OVERLAY_BRANDING_ENV),
        Some(&b"0"[..])
    );
    assert_eq!(
        value(&updates, "VK_ADD_LAYER_PATH"),
        Some(&b"/layers/\xff"[..])
    );
}

#[test]
fn every_overlay_corner_survives_steam_wire_and_environment_expansion() {
    for (corner, expected) in CORNERS {
        let sent = environment().with_overlay(true, OverlayPreset::Compact, corner, 90, 7);
        let decoded = decode_response(&encode_granted(&sent), RULES)
            .expect("decode activation")
            .expect("granted activation");
        let updates = decoded
            .environment_updates(PROTOCOL, &Environment::new())
            .expect("expand child environment");
        assert_eq!(
            value(&updates, REDUNAR_OVERLAY_CORNER_ENV),
            Some(expected.as_bytes())
        );
    }
}

#[test]
fn environment_merge_preserves_non_utf8_layers_and_rejects_conflicts() {
    let entries: [(&str, &[u8]); 4] = [
        ("VK_INSTANCE_LAYERS", b"VK_LAYER_ONE:\xff"),
        ("VK_ADD_LAYER_PATH", b"/existing/\xfe"),
        ("PRESSURE_VESSEL_FILESYSTEMS_RW", b"/already-shared"),
        (
            "LD_PRELOAD",
            b"/existing/liboverlay.so:/existing/\xfd.so",
        ),
    ];
    let updates = environment()
        .environment_updates(PROTOCOL, &inherited(&entries))
        .expect("merge environment");
    for (name, expected) in [
        (
            "VK_INSTANCE_LAYERS",
            &b"VK_LAYER_ONE:\xff:VK_LAYER_REDUNAR_capture"[..],
        ),
        (REDUNAR_REPLAY_TRANSFER_ENV, b"1"),
        (REDUNAR_REPLAY_PRODUCTION_ENV, b"1"),
        (
            "REDUNAR_CAPTURE_REPLY_SOCKET",
            b"/run/user/1000/redunar/capture/capture-reply.sock",
        ),
        (
            "LD_PRELOAD",
            b"/run/user/1000/redunar/capture/libredunar_capture_opengl.so:/existing/liboverlay.so:/existing/\xfd.so",
        ),
        (
            "PRESSURE_VESSEL_FILESYSTEMS_RW",
            b"/run/user/1000/redunar/capture:/already-shared",
        ),
    ] {
        assert_eq!(value(&updates, name), Some(expected), "{name}");
    }
    assert!(!updates.contains(b"SDL_DYNAMIC_API"));

    for (name, conflict) in [
        ("VK_LAYER_PATH", &b"/override"[..]),
        ("REDUNAR_CAPTURE_SESSION", b"foreign"),
        (
            "LD_PRELOAD",
            b"/run/user/1000/redunar/capture/libredunar_capture_opengl.so",
        ),
    ] {
        let mut conflicting = inherited(&entries);
        conflicting.insert(name.as_bytes().to_vec(), conflict.to_vec());
        assert!(
            environment()
                .environment_updates(PROTOCOL, &conflicting)
                .is_err(),
            "{name}"
        );
    }
}

#[test]
fn absent_broker_is_fail_open_with_no_environment_updates() {
    let environment = inherited(&[("EXISTING", b"preserved")]);
    let (updates, notice) = wrapper_updates(
        Err(SteamActivationError::new("no broker")),
        PROTOCOL,
        &environment,
    );
    assert!(updates.is_empty());
    assert!(matches!(notice, WrapperNotice::Unavailable(_)));
    assert_eq!(value(&environment, "EXISTING"), Some(&b"preserved"[..]));
    let (updates, notice) = wrapper_updates(Ok(None), PROTOCOL, &environment);
    assert!(updates.is_empty());
    assert_eq!(notice, WrapperNotice::Denied);
}

#[test]
fn handler_checks_injected_peer_credentials_and_consumes_matching_app_once() {
    fn request(
        store: &mut PendingActivationStore,
        requested_app: SteamAppId,
        process_id: i32,
        uid: u32,
        now: u64,
    ) -> Result<Option<SteamCaptureEnvironment>, SteamActivationError> {
        let process_id_wire = u32::try_from(process_id).expect("positive process ID");
        let response = handle_request_bytes(
            &encode_request(requested_app, process_id_wire),
            store,
            process_id,
            uid,
            now,
        )?;
        decode_response(&response, RULES)
    }

    let now = 100 * SECOND;
    let uid = 1_000;
    let process_id = 4_321;
    let mut store = store_at(now, 30 * SECOND, uid);
    assert!(handle_request_bytes(
        &encode_request(app_id(), 4_321),
        &mut store,
        process_id + 1,
        uid,
        now,
    )
    .is_err());
    assert!(request(
        &mut store,
        SteamAppId::new(12).expect("app ID"),
        process_id,
        uid,
        now,
    )
    .expect("wrong app response")
    .is_none());
    assert!(request(&mut store, app_id(), process_id, uid, now)
        .expect("matching response")
        .is_some());
    assert!(matches!(
        store.state(now),
        SteamActivationState::Claimed { .. }
    ));
    assert!(request(&mut store, app_id(), process_id, uid, now)
        .expect("replay response")
        .is_none());
    assert_eq!(
        broker_answer(b"garbage", &mut store, process_id, uid, now),
        encode_denied()
    );
}

#[test]
fn default_activation_ttl_matches_the_shader_startup_budget() {
    assert_eq!(DEFAULT_STEAM_ACTIVATION_TTL, 5 * 60 * SECOND);
    assert!(DEFAULT_STEAM_ACTIVATION_TTL <= MAX_STEAM_ACTIVATION_TTL);
}

#[test]
fn activation_ttl_is_bounded() {
    let now = 100 * SECOND;
    assert!(PendingSteamActivation::new(app_id(), 1_000, environment(), now, 0).is_err());
    assert!(PendingSteamActivation::new(
        app_id(),
        1_000,
        environment(),
        now,
        MAX_STEAM_ACTIVATION_TTL + 1,
    )
    .is_err());
}

#[test]
fn requests_and_refusals_round_trip() {
    let bytes = encode_request(app_id(), 77);
    let (decoded, process) = decode_request(&bytes).expect("request");
    assert_eq!(decoded.get(), 1_808_500);
    assert_eq!(process, 77);
    assert!(decode_request(&bytes[..bytes.len() - 1]).is_err());
    assert!(decode_response(&encode_denied(), RULES)
        .expect("denied")
        .is_none());
    assert!(decode_response(b"", RULES).is_err());
    let mut truncated = encode_granted(&environment());
    truncated.pop();
    assert!(decode_response(&truncated, RULES).is_err());
    assert!(SteamAppId::new(0).is_none());
    let opaque = environment().with_overlay(
        true,
        OverlayPreset::Compact,
        OverlayCorner::TopLeft,
        5,
        7,
    );
    assert!(decode_response(&encode_granted(&opaque), RULES).is_err());
}

#[test]
fn broker_places_and_actions() {
    assert_eq!(
        steam_broker_socket_path(b"/run/user/1000"),
        b"/run/user/1000/redunar/steam-launch-v1.sock".to_vec()
    );
    assert_eq!(
        socket_parent(b"/run/user/1000/redunar/x.sock"),
        Ok(b"/run/user/1000/redunar".to_vec())
    );
    assert!(socket_parent(b"relative").is_err());
    assert!(check_socket_directory(false, true, 5, 5).is_ok());
    assert!(check_socket_directory(true, true, 5, 5).is_err());
    assert!(check_socket_directory(false, true, 0, 5).is_err());
    assert!(check_socket_owner(5, 5).is_ok());
    assert!(check_socket_owner(4, 5).is_err());
    assert_eq!(socket_step(SocketPlace::Absent, false), Ok(SocketStep::Bind));
    assert_eq!(socket_step(SocketPlace::Dead, false), Ok(SocketStep::Remove));
    assert!(socket_step(SocketPlace::Dead, true).is_err());
    assert!(socket_step(SocketPlace::Live, false).is_err());
    assert!(socket_step(SocketPlace::Foreign, false).is_err());
    assert!(broker_goes_on(false, 1, 2));
    assert!(!broker_goes_on(true, 1, 2));
    assert!(!broker_goes_on(false, 2, 2));
    assert_eq!(
        broker_action(AcceptOutcome::Connected, false),
        BrokerAction::Answer
    );
    assert_eq!(
        broker_action(AcceptOutcome::Connected, true),
        BrokerAction::Stop
    );
    assert_eq!(
        broker_action(AcceptOutcome::WouldBlock, false),
        BrokerAction::Wait
    );
    assert!(check_message_length(10, 10).is_ok());
    assert!(check_message_length(11, 10).is_err());
}

fn arguments(values: &[&[u8]]) -> Vec<Vec<u8>> {
    values.iter().map(|value| value.to_vec()).collect()
}

#[test]
fn parser_preserves_non_utf8_steam_argv_without_shell_processing() {
    let command = b"/games/non-utf8-\xff";
    let literal = b"$(touch /tmp/redunar-wrapper-must-not-run)";
    let non_utf8 = [b'-', b'-', 0xfe];
    let invocation = Invocation::parse(&arguments(&[
        b"--app-id",
        b"1808500",
        b"--",
        command,
        literal,
        &non_utf8,
    ]))
    .expect("valid wrapper invocation");
    assert_eq!(invocation.app_id, SteamAppId::new(1_808_500));
    assert_eq!(invocation.command, command.to_vec());
    assert_eq!(
        invocation.arguments,
        vec![literal.to_vec(), non_utf8.to_vec()]
    );
}

#[test]
fn malformed_prefix_fails_open_to_the_original_argv() {
    let invocation = Invocation::parse(&arguments(&[
        b"--app-id",
        b"not-a-number",
        b"--",
        b"/games/example",
        b"--literal",
    ]))
    .expect("original command remains available");
    assert_eq!(invocation.app_id, None);
    assert_eq!(invocation.command, b"/games/example".to_vec());
    assert_eq!(invocation.arguments, vec![b"--literal".to_vec()]);
}

#[test]
fn missing_original_command_is_rejected() {
    assert!(Invocation::parse(&arguments(&[b"--app-id", b"12", b"--"])).is_none());
}

#[test]
fn vehicles_wrap_the_original_command() {
    let managed = inherited(&[("REDUNAR_GAMESCOPE", b"1")]);
    let nothing = Environment::new();
    assert_eq!(
        launch_vehicle(&managed, &nothing, true, true),
        LaunchVehicle::Gamescope
    );
    assert_eq!(
        launch_vehicle(&managed, &nothing, false, true),
        LaunchVehicle::Direct
    );
    assert_eq!(
        launch_vehicle(&nothing, &nothing, true, true),
        LaunchVehicle::Direct
    );
    let invocation = Invocation::parse(&arguments(&[b"--", b"/games/example", b"-x"]))
        .expect("invocation");
    assert_eq!(
        command_line(LaunchVehicle::GameMode, invocation),
        arguments(&[b"gamemoderun", b"/games/example", b"-x"])
    );
}
