//! What a launched game finds in its environment, and what of it a reader of
//! the layer manifest gets back.
use crate::environment::value_of;
use crate::launch;
use crate::launch::{OverlayLaunchConfig, ReplayTransferLaunchConfig};
use crate::overlay::{
    OverlayCorner, OverlayDefaults, OverlayLayout, OverlayPalette, OverlayPreset,
};
use crate::paths;
use crate::replay_settings::ReplayFrameRate;
use crate::steam_launch_bridge;
use crate::steam_launch_bridge::CaptureState;
use crate::text;
use vstd::prelude::*;
use vstd::string::*;

verus! {

broadcast use vstd::string::group_string_axioms;

proof fn lemma_names_differ(left: &str, right: &str)
    requires
        left@ != right@,
    ensures
        left.spec_bytes() != right.spec_bytes(),
{
    vstd::utf8::encode_utf8_decode_utf8(left@);
    vstd::utf8::encode_utf8_decode_utf8(right@);
}

/// No two variables have one name.
#[verifier::spinoff_prover]
proof fn lemma_names()
    ensures
        "VK_ADD_LAYER_PATH".spec_bytes().len() == 17,
        "PRESSURE_VESSEL_FILESYSTEMS_RW".spec_bytes().len() == 30,
        "VK_INSTANCE_LAYERS".spec_bytes().len() == 18,
        "LD_PRELOAD".spec_bytes().len() == 10,
        "REDUNAR_CAPTURE_SOCKET".spec_bytes().len() == 22,
        "REDUNAR_CAPTURE_REPLY_SOCKET".spec_bytes().len() == 28,
        "REDUNAR_CAPTURE_SESSION".spec_bytes().len() == 23,
        "REDUNAR_CAPTURE_PROTOCOL".spec_bytes().len() == 24,
        "REDUNAR_OVERLAY_VISIBLE".spec_bytes().len() == 23,
        "REDUNAR_OVERLAY_PRESET".spec_bytes().len() == 22,
        "REDUNAR_OVERLAY_LAYOUT".spec_bytes().len() == 22,
        "REDUNAR_OVERLAY_PALETTE".spec_bytes().len() == 23,
        "REDUNAR_OVERLAY_BRANDING".spec_bytes().len() == 24,
        "REDUNAR_OVERLAY_CORNER".spec_bytes().len() == 22,
        "REDUNAR_OVERLAY_OPACITY_PERCENT".spec_bytes().len() == 31,
        "REDUNAR_OVERLAY_METRICS".spec_bytes().len() == 23,
        "REDUNAR_GAMESCOPE".spec_bytes().len() == 17,
        "REDUNAR_GAMEMODE".spec_bytes().len() == 16,
        "REDUNAR_OVERLAY_TELEMETRY".spec_bytes().len() == 25,
        "REDUNAR_REPLAY_TRANSFER".spec_bytes().len() == 23,
        "REDUNAR_REPLAY_PRODUCTION".spec_bytes().len() == 25,
        "REDUNAR_REPLAY_FRAME_RATE".spec_bytes().len() == 25,
        "VK_ADD_LAYER_PATH".spec_bytes() != "REDUNAR_GAMESCOPE".spec_bytes(),
        "REDUNAR_CAPTURE_SOCKET".spec_bytes() != "REDUNAR_OVERLAY_PRESET".spec_bytes(),
        "REDUNAR_CAPTURE_SOCKET".spec_bytes() != "REDUNAR_OVERLAY_LAYOUT".spec_bytes(),
        "REDUNAR_CAPTURE_SOCKET".spec_bytes() != "REDUNAR_OVERLAY_CORNER".spec_bytes(),
        "REDUNAR_CAPTURE_SESSION".spec_bytes() != "REDUNAR_OVERLAY_VISIBLE".spec_bytes(),
        "REDUNAR_CAPTURE_SESSION".spec_bytes() != "REDUNAR_OVERLAY_PALETTE".spec_bytes(),
        "REDUNAR_CAPTURE_SESSION".spec_bytes() != "REDUNAR_OVERLAY_METRICS".spec_bytes(),
        "REDUNAR_CAPTURE_SESSION".spec_bytes() != "REDUNAR_REPLAY_TRANSFER".spec_bytes(),
        "REDUNAR_CAPTURE_PROTOCOL".spec_bytes() != "REDUNAR_OVERLAY_BRANDING".spec_bytes(),
        "REDUNAR_OVERLAY_VISIBLE".spec_bytes() != "REDUNAR_OVERLAY_PALETTE".spec_bytes(),
        "REDUNAR_OVERLAY_VISIBLE".spec_bytes() != "REDUNAR_OVERLAY_METRICS".spec_bytes(),
        "REDUNAR_OVERLAY_VISIBLE".spec_bytes() != "REDUNAR_REPLAY_TRANSFER".spec_bytes(),
        "REDUNAR_OVERLAY_PRESET".spec_bytes() != "REDUNAR_OVERLAY_LAYOUT".spec_bytes(),
        "REDUNAR_OVERLAY_PRESET".spec_bytes() != "REDUNAR_OVERLAY_CORNER".spec_bytes(),
        "REDUNAR_OVERLAY_LAYOUT".spec_bytes() != "REDUNAR_OVERLAY_CORNER".spec_bytes(),
        "REDUNAR_OVERLAY_PALETTE".spec_bytes() != "REDUNAR_OVERLAY_METRICS".spec_bytes(),
        "REDUNAR_OVERLAY_PALETTE".spec_bytes() != "REDUNAR_REPLAY_TRANSFER".spec_bytes(),
        "REDUNAR_OVERLAY_METRICS".spec_bytes() != "REDUNAR_REPLAY_TRANSFER".spec_bytes(),
        "REDUNAR_OVERLAY_TELEMETRY".spec_bytes() != "REDUNAR_REPLAY_PRODUCTION".spec_bytes(),
        "REDUNAR_OVERLAY_TELEMETRY".spec_bytes() != "REDUNAR_REPLAY_FRAME_RATE".spec_bytes(),
        "REDUNAR_REPLAY_PRODUCTION".spec_bytes() != "REDUNAR_REPLAY_FRAME_RATE".spec_bytes(),
{
    reveal_strlit("VK_ADD_LAYER_PATH");
    assert("VK_ADD_LAYER_PATH".is_ascii());
    reveal_strlit("PRESSURE_VESSEL_FILESYSTEMS_RW");
    assert("PRESSURE_VESSEL_FILESYSTEMS_RW".is_ascii());
    reveal_strlit("VK_INSTANCE_LAYERS");
    assert("VK_INSTANCE_LAYERS".is_ascii());
    reveal_strlit("LD_PRELOAD");
    assert("LD_PRELOAD".is_ascii());
    reveal_strlit("REDUNAR_CAPTURE_SOCKET");
    assert("REDUNAR_CAPTURE_SOCKET".is_ascii());
    reveal_strlit("REDUNAR_CAPTURE_REPLY_SOCKET");
    assert("REDUNAR_CAPTURE_REPLY_SOCKET".is_ascii());
    reveal_strlit("REDUNAR_CAPTURE_SESSION");
    assert("REDUNAR_CAPTURE_SESSION".is_ascii());
    reveal_strlit("REDUNAR_CAPTURE_PROTOCOL");
    assert("REDUNAR_CAPTURE_PROTOCOL".is_ascii());
    reveal_strlit("REDUNAR_OVERLAY_VISIBLE");
    assert("REDUNAR_OVERLAY_VISIBLE".is_ascii());
    reveal_strlit("REDUNAR_OVERLAY_PRESET");
    assert("REDUNAR_OVERLAY_PRESET".is_ascii());
    reveal_strlit("REDUNAR_OVERLAY_LAYOUT");
    assert("REDUNAR_OVERLAY_LAYOUT".is_ascii());
    reveal_strlit("REDUNAR_OVERLAY_PALETTE");
    assert("REDUNAR_OVERLAY_PALETTE".is_ascii());
    reveal_strlit("REDUNAR_OVERLAY_BRANDING");
    assert("REDUNAR_OVERLAY_BRANDING".is_ascii());
    reveal_strlit("REDUNAR_OVERLAY_CORNER");
    assert("REDUNAR_OVERLAY_CORNER".is_ascii());
    reveal_strlit("REDUNAR_OVERLAY_OPACITY_PERCENT");
    assert("REDUNAR_OVERLAY_OPACITY_PERCENT".is_ascii());
    reveal_strlit("REDUNAR_OVERLAY_METRICS");
    assert("REDUNAR_OVERLAY_METRICS".is_ascii());
    reveal_strlit("REDUNAR_GAMESCOPE");
    assert("REDUNAR_GAMESCOPE".is_ascii());
    reveal_strlit("REDUNAR_GAMEMODE");
    assert("REDUNAR_GAMEMODE".is_ascii());
    reveal_strlit("REDUNAR_OVERLAY_TELEMETRY");
    assert("REDUNAR_OVERLAY_TELEMETRY".is_ascii());
    reveal_strlit("REDUNAR_REPLAY_TRANSFER");
    assert("REDUNAR_REPLAY_TRANSFER".is_ascii());
    reveal_strlit("REDUNAR_REPLAY_PRODUCTION");
    assert("REDUNAR_REPLAY_PRODUCTION".is_ascii());
    reveal_strlit("REDUNAR_REPLAY_FRAME_RATE");
    assert("REDUNAR_REPLAY_FRAME_RATE".is_ascii());
    assert("VK_ADD_LAYER_PATH"@[0] != "REDUNAR_GAMESCOPE"@[0]);
    lemma_names_differ("VK_ADD_LAYER_PATH", "REDUNAR_GAMESCOPE");
    assert("REDUNAR_CAPTURE_SOCKET"@[8] != "REDUNAR_OVERLAY_PRESET"@[8]);
    lemma_names_differ("REDUNAR_CAPTURE_SOCKET", "REDUNAR_OVERLAY_PRESET");
    assert("REDUNAR_CAPTURE_SOCKET"@[8] != "REDUNAR_OVERLAY_LAYOUT"@[8]);
    lemma_names_differ("REDUNAR_CAPTURE_SOCKET", "REDUNAR_OVERLAY_LAYOUT");
    assert("REDUNAR_CAPTURE_SOCKET"@[8] != "REDUNAR_OVERLAY_CORNER"@[8]);
    lemma_names_differ("REDUNAR_CAPTURE_SOCKET", "REDUNAR_OVERLAY_CORNER");
    assert("REDUNAR_CAPTURE_SESSION"@[8] != "REDUNAR_OVERLAY_VISIBLE"@[8]);
    lemma_names_differ("REDUNAR_CAPTURE_SESSION", "REDUNAR_OVERLAY_VISIBLE");
    assert("REDUNAR_CAPTURE_SESSION"@[8] != "REDUNAR_OVERLAY_PALETTE"@[8]);
    lemma_names_differ("REDUNAR_CAPTURE_SESSION", "REDUNAR_OVERLAY_PALETTE");
    assert("REDUNAR_CAPTURE_SESSION"@[8] != "REDUNAR_OVERLAY_METRICS"@[8]);
    lemma_names_differ("REDUNAR_CAPTURE_SESSION", "REDUNAR_OVERLAY_METRICS");
    assert("REDUNAR_CAPTURE_SESSION"@[8] != "REDUNAR_REPLAY_TRANSFER"@[8]);
    lemma_names_differ("REDUNAR_CAPTURE_SESSION", "REDUNAR_REPLAY_TRANSFER");
    assert("REDUNAR_CAPTURE_PROTOCOL"@[8] != "REDUNAR_OVERLAY_BRANDING"@[8]);
    lemma_names_differ("REDUNAR_CAPTURE_PROTOCOL", "REDUNAR_OVERLAY_BRANDING");
    assert("REDUNAR_OVERLAY_VISIBLE"@[16] != "REDUNAR_OVERLAY_PALETTE"@[16]);
    lemma_names_differ("REDUNAR_OVERLAY_VISIBLE", "REDUNAR_OVERLAY_PALETTE");
    assert("REDUNAR_OVERLAY_VISIBLE"@[16] != "REDUNAR_OVERLAY_METRICS"@[16]);
    lemma_names_differ("REDUNAR_OVERLAY_VISIBLE", "REDUNAR_OVERLAY_METRICS");
    assert("REDUNAR_OVERLAY_VISIBLE"@[8] != "REDUNAR_REPLAY_TRANSFER"@[8]);
    lemma_names_differ("REDUNAR_OVERLAY_VISIBLE", "REDUNAR_REPLAY_TRANSFER");
    assert("REDUNAR_OVERLAY_PRESET"@[16] != "REDUNAR_OVERLAY_LAYOUT"@[16]);
    lemma_names_differ("REDUNAR_OVERLAY_PRESET", "REDUNAR_OVERLAY_LAYOUT");
    assert("REDUNAR_OVERLAY_PRESET"@[16] != "REDUNAR_OVERLAY_CORNER"@[16]);
    lemma_names_differ("REDUNAR_OVERLAY_PRESET", "REDUNAR_OVERLAY_CORNER");
    assert("REDUNAR_OVERLAY_LAYOUT"@[16] != "REDUNAR_OVERLAY_CORNER"@[16]);
    lemma_names_differ("REDUNAR_OVERLAY_LAYOUT", "REDUNAR_OVERLAY_CORNER");
    assert("REDUNAR_OVERLAY_PALETTE"@[16] != "REDUNAR_OVERLAY_METRICS"@[16]);
    lemma_names_differ("REDUNAR_OVERLAY_PALETTE", "REDUNAR_OVERLAY_METRICS");
    assert("REDUNAR_OVERLAY_PALETTE"@[8] != "REDUNAR_REPLAY_TRANSFER"@[8]);
    lemma_names_differ("REDUNAR_OVERLAY_PALETTE", "REDUNAR_REPLAY_TRANSFER");
    assert("REDUNAR_OVERLAY_METRICS"@[8] != "REDUNAR_REPLAY_TRANSFER"@[8]);
    lemma_names_differ("REDUNAR_OVERLAY_METRICS", "REDUNAR_REPLAY_TRANSFER");
    assert("REDUNAR_OVERLAY_TELEMETRY"@[8] != "REDUNAR_REPLAY_PRODUCTION"@[8]);
    lemma_names_differ("REDUNAR_OVERLAY_TELEMETRY", "REDUNAR_REPLAY_PRODUCTION");
    assert("REDUNAR_OVERLAY_TELEMETRY"@[8] != "REDUNAR_REPLAY_FRAME_RATE"@[8]);
    lemma_names_differ("REDUNAR_OVERLAY_TELEMETRY", "REDUNAR_REPLAY_FRAME_RATE");
    assert("REDUNAR_REPLAY_PRODUCTION"@[15] != "REDUNAR_REPLAY_FRAME_RATE"@[15]);
    lemma_names_differ("REDUNAR_REPLAY_PRODUCTION", "REDUNAR_REPLAY_FRAME_RATE");
}

/// The value of a variable, by the variable's name.
pub open spec fn told(variables: Map<Seq<u8>, Seq<u8>>, name: &str) -> Option<Seq<u8>> {
    value_of(variables, name.spec_bytes())
}

/// A number as a game reads it in its environment.
pub open spec fn number_bytes(value: nat) -> Seq<u8> {
    vstd::utf8::encode_utf8(text::decimal(value))
}

/// A game is told of the overlay's eight choices, each under its own name:
/// switches as one or zero, numbers in digits, the others by their names.
/// Nothing else in its environment changes.
pub proof fn games_are_told_of_the_overlay(
    variables: Map<Seq<u8>, Seq<u8>>,
    config: OverlayLaunchConfig,
    other: Seq<u8>,
)
    ensures
        ({
            let after = launch::overlay_variables(variables, config);
            &&& told(after, "REDUNAR_OVERLAY_VISIBLE") == Some(
                if config.visible { "1".spec_bytes() } else { "0".spec_bytes() },
            )
            &&& told(after, "REDUNAR_OVERLAY_BRANDING") == Some(
                if config.branding_visible { "1".spec_bytes() } else { "0".spec_bytes() },
            )
            &&& told(after, "REDUNAR_OVERLAY_OPACITY_PERCENT") == Some(
                number_bytes(config.opacity_percent as nat),
            )
            &&& told(after, "REDUNAR_OVERLAY_METRICS") == Some(
                number_bytes(config.metric_bits as nat),
            )
            &&& told(after, "REDUNAR_OVERLAY_PRESET") == Some(
                match config.preset {
                    OverlayPreset::Compact => "compact".spec_bytes(),
                    OverlayPreset::FpsOnly => "fps-only".spec_bytes(),
                    OverlayPreset::Detailed => "detailed".spec_bytes(),
                    OverlayPreset::Custom => "custom".spec_bytes(),
                },
            )
            &&& told(after, "REDUNAR_OVERLAY_LAYOUT") == Some(
                match config.layout {
                    OverlayLayout::Grid => "grid".spec_bytes(),
                    OverlayLayout::Ribbon => "ribbon".spec_bytes(),
                    OverlayLayout::Telemetry => "telemetry".spec_bytes(),
                },
            )
            &&& told(after, "REDUNAR_OVERLAY_PALETTE") == Some(
                match config.palette {
                    OverlayPalette::Redunar => "redunar".spec_bytes(),
                    OverlayPalette::Glacier => "glacier".spec_bytes(),
                    OverlayPalette::Ember => "ember".spec_bytes(),
                    OverlayPalette::Mint => "mint".spec_bytes(),
                    OverlayPalette::Mono => "mono".spec_bytes(),
                    OverlayPalette::Amethyst => "amethyst".spec_bytes(),
                    OverlayPalette::Solar => "solar".spec_bytes(),
                    OverlayPalette::Rose => "rose".spec_bytes(),
                },
            )
            &&& told(after, "REDUNAR_OVERLAY_CORNER") == Some(
                match config.corner {
                    OverlayCorner::TopLeft => "top-left".spec_bytes(),
                    OverlayCorner::TopRight => "top-right".spec_bytes(),
                    OverlayCorner::BottomLeft => "bottom-left".spec_bytes(),
                    OverlayCorner::BottomRight => "bottom-right".spec_bytes(),
                },
            )
            &&& value_of(after, other) != value_of(variables, other) ==> {
                ||| other == "REDUNAR_OVERLAY_VISIBLE".spec_bytes()
                ||| other == "REDUNAR_OVERLAY_PRESET".spec_bytes()
                ||| other == "REDUNAR_OVERLAY_LAYOUT".spec_bytes()
                ||| other == "REDUNAR_OVERLAY_PALETTE".spec_bytes()
                ||| other == "REDUNAR_OVERLAY_BRANDING".spec_bytes()
                ||| other == "REDUNAR_OVERLAY_CORNER".spec_bytes()
                ||| other == "REDUNAR_OVERLAY_OPACITY_PERCENT".spec_bytes()
                ||| other == "REDUNAR_OVERLAY_METRICS".spec_bytes()
            }
        }),
{
    lemma_names();
}

/// A game is told whether frames are wanted for a replay, and how many a
/// second. Nothing else in its environment changes.
pub proof fn games_are_told_of_the_replay(
    variables: Map<Seq<u8>, Seq<u8>>,
    config: ReplayTransferLaunchConfig,
    other: Seq<u8>,
)
    ensures
        ({
            let after = launch::replay_variables(variables, config);
            let wanted = if config.requested { "1".spec_bytes() } else { "0".spec_bytes() };
            &&& told(after, "REDUNAR_REPLAY_TRANSFER") == Some(wanted)
            &&& told(after, "REDUNAR_REPLAY_PRODUCTION") == Some(wanted)
            &&& told(after, "REDUNAR_REPLAY_FRAME_RATE") == Some(
                match config.frame_rate {
                    ReplayFrameRate::Fps30 => "30".spec_bytes(),
                    ReplayFrameRate::Fps60 => "60".spec_bytes(),
                    ReplayFrameRate::Fps120 => "120".spec_bytes(),
                },
            )
            &&& value_of(after, other) != value_of(variables, other) ==> {
                ||| other == "REDUNAR_REPLAY_TRANSFER".spec_bytes()
                ||| other == "REDUNAR_REPLAY_PRODUCTION".spec_bytes()
                ||| other == "REDUNAR_REPLAY_FRAME_RATE".spec_bytes()
            }
        }),
{
    lemma_names();
}

/// A directory that is put before a search path is looked through first, and
/// then what was there, in its order.
pub proof fn the_directory_is_searched_first(directory: Seq<u8>, inherited: Seq<u8>)
    requires
        !directory.contains(':' as u8),
    ensures
        launch::prepended(directory, None) == Some(directory),
        launch::prepended(directory, Some(inherited)) matches Some(list) && text::fields_of(
            list,
            ':' as u8,
        ) == seq![directory] + text::fields_of(inherited, ':' as u8),
{
    let list = directory.push(58u8) + inherited;
    assert forall|i: int| 0 <= i < directory.len() implies list[i] != 58u8 by {
        assert(list[i] == directory[i]);
        assert(directory.contains(directory[i]));
    }
    text::lemma_first_index_is(list, 58u8, directory.len() as int);
    assert(list.take(directory.len() as int) =~= directory);
    assert(list.skip(directory.len() as int + 1) =~= inherited);
}

/// A directory with a colon in its name cannot be put before a search path.
pub proof fn colons_are_refused(directory: Seq<u8>, inherited: Option<Seq<u8>>)
    requires
        directory.contains(':' as u8),
    ensures
        launch::prepended(directory, inherited) is None,
{
}

/// The capture layer is enabled behind the layers that were enabled before, and
/// not a second time.
pub proof fn the_capture_layer_is_enabled_once(inherited: Seq<Seq<u8>>)
    ensures
        ({
            let layer = "VK_LAYER_REDUNAR_capture".spec_bytes();
            let enabled = launch::enabled_layers(inherited);
            &&& enabled.contains(layer)
            &&& enabled.take(inherited.len() as int) == inherited
            &&& enabled.len() == inherited.len() + if inherited.contains(layer) { 0int } else { 1 }
        }),
{
    let layer = "VK_LAYER_REDUNAR_capture".spec_bytes();
    let enabled = launch::enabled_layers(inherited);
    assert(enabled.take(inherited.len() as int) =~= inherited);
    if !inherited.contains(layer) {
        assert(enabled[inherited.len() as int] == layer);
    }
}

/// A captured game finds the layer's directory first on the path for added
/// layers, the socket and the session to report to, the version of the reports,
/// and every feature switched off until it is asked for.
pub proof fn games_are_told_where_to_report(
    layer_directory: Seq<u8>,
    socket: Seq<u8>,
    session: Seq<u8>,
    protocol: u16,
    inherited: Map<Seq<u8>, Seq<u8>>,
)
    requires
        !layer_directory.contains(':' as u8),
    ensures
        ({
            let variables = launch::plan_variables(
                layer_directory,
                socket,
                session,
                protocol,
                inherited,
            );
            &&& told(variables, "REDUNAR_CAPTURE_SOCKET") == Some(socket)
            &&& told(variables, "REDUNAR_CAPTURE_SESSION") == Some(
                vstd::utf8::encode_utf8(text::hex_text(session)),
            )
            &&& told(variables, "REDUNAR_CAPTURE_PROTOCOL") == Some(number_bytes(protocol as nat))
            &&& told(variables, "REDUNAR_OVERLAY_VISIBLE") == Some("0".spec_bytes())
            &&& told(variables, "REDUNAR_REPLAY_TRANSFER") == Some("0".spec_bytes())
            &&& told(variables, "REDUNAR_REPLAY_PRODUCTION") == Some("0".spec_bytes())
            &&& told(variables, "REDUNAR_REPLAY_FRAME_RATE") == Some("60".spec_bytes())
            &&& told(variables, "VK_ADD_LAYER_PATH") == Some(
                match told(inherited, "VK_ADD_LAYER_PATH") {
                    Some(list) => layer_directory + seq![':' as u8] + list,
                    None => layer_directory,
                },
            )
            &&& told(variables, "VK_INSTANCE_LAYERS") == Some(
                launch::colon_joined(
                    launch::enabled_layers(
                        match told(inherited, "VK_INSTANCE_LAYERS") {
                            Some(list) => launch::colon_list(list),
                            None => Seq::empty(),
                        },
                    ),
                ),
            )
        }),
{
    lemma_names();
    if told(inherited, "VK_ADD_LAYER_PATH") is Some {
        let list = told(inherited, "VK_ADD_LAYER_PATH")->0;
        assert(layer_directory.push(58u8) + list =~= layer_directory + seq![':' as u8] + list);
    }
}

/// A game that Flatpak starts cannot be captured, wherever Flatpak lies and
/// however its name is written.
pub proof fn flatpak_games_are_not_captured(
    executable: Seq<u8>,
    arguments: Seq<Seq<u8>>,
    name: Seq<u8>,
)
    requires
        paths::final_name(executable) == Some(name),
        text::bytes_alike(name, "flatpak".spec_bytes()),
    ensures
        launch::launch_support(executable, arguments) == launch::CaptureLaunchSupport::Unavailable(
            launch::CaptureLaunchUnavailableReason::FlatpakSandbox,
        ),
{
}

/// A game that Steam is asked to start is Steam's child, under the number behind
/// the first `-applaunch`, and cannot be captured from here.
pub proof fn steam_keeps_its_games(
    executable: Seq<u8>,
    arguments: Seq<Seq<u8>>,
    name: Seq<u8>,
    at: int,
    app_id: u32,
)
    requires
        paths::final_name(executable) == Some(name),
        text::bytes_alike(name, "steam".spec_bytes()) || text::bytes_alike(
            name,
            "steam.sh".spec_bytes(),
        ) || text::bytes_alike(name, "bin_steam.sh".spec_bytes()),
        !text::bytes_alike(name, "flatpak".spec_bytes()),
        0 <= at,
        at + 1 < arguments.len(),
        arguments[at] == "-applaunch".spec_bytes(),
        forall|i: int| 0 <= i < at ==> arguments[i] != "-applaunch".spec_bytes(),
        arguments[at + 1] == number_bytes(app_id as nat),
    ensures
        launch::ownership(executable, arguments)
            == (launch::GameLaunchProcessOwnership::ForwardedSteam {
            app_id: if app_id == 0 { None } else { Some(app_id) },
        }),
        launch::launch_support(executable, arguments) == launch::CaptureLaunchSupport::Unavailable(
            launch::CaptureLaunchUnavailableReason::SteamForwarding,
        ),
{
    text::lemma_first_index_is(arguments, "-applaunch".spec_bytes(), at);
    text::decimal_round_trip(app_id as nat);
    vstd::utf8::encode_utf8_decode_utf8(text::decimal(app_id as nat));
    vstd::utf8::encode_utf8_valid_utf8(text::decimal(app_id as nat));
}

/// A program of another name is started as it is, and can be captured.
pub proof fn other_games_are_captured(executable: Seq<u8>, arguments: Seq<Seq<u8>>)
    requires
        match paths::final_name(executable) {
            None => true,
            Some(name) => !text::bytes_alike(name, "flatpak".spec_bytes()) && !text::bytes_alike(
                name,
                "steam".spec_bytes(),
            ) && !text::bytes_alike(name, "steam.sh".spec_bytes()) && !text::bytes_alike(
                name,
                "bin_steam.sh".spec_bytes(),
            ),
        },
    ensures
        launch::launch_support(executable, arguments) == launch::CaptureLaunchSupport::Supported,
        launch::ownership(executable, arguments)
            == launch::GameLaunchProcessOwnership::DirectChild,
{
}

/// The text that a JSON string stands for, read from the front. None where the
/// string holds what JSON does not allow.
pub open spec fn json_read(chars: Seq<char>) -> Option<Seq<char>>
    decreases chars.len(),
{
    if chars.len() == 0 {
        Some(Seq::empty())
    } else if chars[0] == '"' || (chars[0] as int) < 0x20 {
        None
    } else if chars[0] != '\\' {
        match json_read(chars.skip(1)) {
            Some(rest) => Some(seq![chars[0]] + rest),
            None => None,
        }
    } else if chars.len() < 2 {
        None
    } else if chars[1] == 'u' {
        if chars.len() < 6 {
            None
        } else {
            match json_read(chars.skip(6)) {
                Some(rest) => Some(
                    seq![(text::hex_value(chars.subrange(2, 6)) as u32) as char] + rest,
                ),
                None => None,
            }
        }
    } else {
        match json_read(chars.skip(2)) {
            Some(rest) => if chars[1] == '"' || chars[1] == '\\' {
                Some(seq![chars[1]] + rest)
            } else if chars[1] == 'n' {
                Some(seq!['\n'] + rest)
            } else if chars[1] == 'r' {
                Some(seq!['\r'] + rest)
            } else if chars[1] == 't' {
                Some(seq!['\t'] + rest)
            } else {
                None
            },
            None => None,
        }
    }
}

proof fn lemma_json_front(value: Seq<char>)
    requires
        value.len() > 0,
    ensures
        launch::json_text(value) == launch::json_char(value[0]) + launch::json_text(value.skip(1)),
    decreases value.len(),
{
    if value.len() == 1 {
        assert(value.skip(1) =~= Seq::<char>::empty());
        assert(value.drop_last() =~= Seq::<char>::empty());
        assert(launch::json_text(value) =~= launch::json_char(value[0]) + launch::json_text(
            value.skip(1),
        ));
    } else {
        let shorter = value.drop_last();
        lemma_json_front(shorter);
        assert(shorter.skip(1) =~= value.skip(1).drop_last());
        assert(value.skip(1).last() == value.last());
        assert(launch::json_text(value) =~= launch::json_char(value[0]) + launch::json_text(
            value.skip(1),
        ));
    }
}

/// A reader of the manifest gets the very path that was written into it.
#[verifier::spinoff_prover]
pub proof fn json_reads_back(value: Seq<char>)
    ensures
        json_read(launch::json_text(value)) == Some(value),
    decreases value.len(),
{
    let all = launch::json_text(value);
    if value.len() == 0 {
        assert(all =~= Seq::<char>::empty());
        assert(value =~= Seq::<char>::empty());
    } else {
        let first = value[0];
        let front = launch::json_char(first);
        let rest = value.skip(1);
        json_reads_back(rest);
        lemma_json_front(value);
        assert(seq![first] + rest =~= value);
        assert(all.skip(front.len() as int) =~= launch::json_text(rest));
        assert(all[0] == front[0]);
        if front.len() > 1 {
            assert(all[1] == front[1]);
            assert(front[0] == '\\');
        } else {
            assert(front[0] == first);
            assert(all.skip(1) =~= launch::json_text(rest));
        }
        if front.len() == 2 {
            assert(all.skip(2) =~= launch::json_text(rest));
        }
        if front.len() > 2 {
            lemma_control_code(first);
            assert(all.subrange(2, 6) =~= text::hex_fixed(first as nat, 4));
            assert(all.skip(6) =~= launch::json_text(rest));
        }
    }
}

proof fn lemma_control_code(character: char)
    requires
        text::is_control_code(character),
    ensures
        text::hex_fixed(character as nat, 4).len() == 4,
        text::hex_value(text::hex_fixed(character as nat, 4)) == character as nat,
        ((character as nat) as u32) as char == character,
{
    vstd::utf8::char_u32_cast(character, character as u32);
    reveal_with_fuel(text::hex_range, 5);
    text::hex_fixed_round_trip(character as nat, 4);
}

/// A game that Steam starts is told the same of the overlay and the replay, where
/// to report and where to listen, and what else was chosen for it. The directory
/// of the socket is shared with it, and the capture library is loaded before
/// those that it would load anyway.
#[verifier::spinoff_prover]
pub proof fn steam_games_are_told_the_same(
    state: CaptureState,
    protocol: u16,
    inherited: Map<Seq<u8>, Seq<u8>>,
)
    requires
        steam_launch_bridge::merge_fault(state, inherited) is None,
    ensures
        ({
            let variables = steam_launch_bridge::merged_variables(state, protocol, inherited);
            let overlay = launch::overlay_variables(Map::empty(), state.overlay);
            let replay = launch::replay_variables(Map::empty(), state.replay);
            &&& told(variables, "REDUNAR_CAPTURE_SOCKET") == Some(state.capture_socket)
            &&& told(variables, "REDUNAR_CAPTURE_REPLY_SOCKET") == Some(state.capture_reply_socket)
            &&& told(variables, "REDUNAR_CAPTURE_SESSION") == Some(
                vstd::utf8::encode_utf8(text::hex_text(state.session)),
            )
            &&& told(variables, "REDUNAR_CAPTURE_PROTOCOL") == Some(number_bytes(protocol as nat))
            &&& told(variables, "REDUNAR_GAMESCOPE") == Some(
                if state.gamescope { "1".spec_bytes() } else { "0".spec_bytes() },
            )
            &&& told(variables, "REDUNAR_GAMEMODE") == Some(
                if state.gamemode { "1".spec_bytes() } else { "0".spec_bytes() },
            )
            &&& told(variables, "REDUNAR_OVERLAY_TELEMETRY") == state.overlay_telemetry_path
            &&& told(variables, "REDUNAR_OVERLAY_VISIBLE") == told(overlay, "REDUNAR_OVERLAY_VISIBLE")
            &&& told(variables, "REDUNAR_OVERLAY_PRESET") == told(overlay, "REDUNAR_OVERLAY_PRESET")
            &&& told(variables, "REDUNAR_OVERLAY_LAYOUT") == told(overlay, "REDUNAR_OVERLAY_LAYOUT")
            &&& told(variables, "REDUNAR_OVERLAY_PALETTE") == told(overlay, "REDUNAR_OVERLAY_PALETTE")
            &&& told(variables, "REDUNAR_OVERLAY_BRANDING") == told(overlay, "REDUNAR_OVERLAY_BRANDING")
            &&& told(variables, "REDUNAR_OVERLAY_CORNER") == told(overlay, "REDUNAR_OVERLAY_CORNER")
            &&& told(variables, "REDUNAR_OVERLAY_OPACITY_PERCENT") == told(overlay, "REDUNAR_OVERLAY_OPACITY_PERCENT")
            &&& told(variables, "REDUNAR_OVERLAY_METRICS") == told(overlay, "REDUNAR_OVERLAY_METRICS")
            &&& told(variables, "REDUNAR_REPLAY_TRANSFER") == told(replay, "REDUNAR_REPLAY_TRANSFER")
            &&& told(variables, "REDUNAR_REPLAY_PRODUCTION") == told(replay, "REDUNAR_REPLAY_PRODUCTION")
            &&& told(variables, "REDUNAR_REPLAY_FRAME_RATE") == told(replay, "REDUNAR_REPLAY_FRAME_RATE")
            &&& told(variables, "VK_ADD_LAYER_PATH") == launch::prepended(
                state.layer_manifest_directory,
                told(inherited, "VK_ADD_LAYER_PATH"),
            )
            &&& told(variables, "LD_PRELOAD") == (match state.opengl_library {
                Some(library) => launch::prepended(library, told(inherited, "LD_PRELOAD")),
                None => None,
            })
            &&& paths::parent_of(state.capture_socket) matches Some(directory) && told(
                variables,
                "PRESSURE_VESSEL_FILESYSTEMS_RW",
            ) == launch::prepended(directory, told(inherited, "PRESSURE_VESSEL_FILESYSTEMS_RW"))
        }),
{
    lemma_names();
}

/// A game that Steam starts keeps the layers that were enabled, and the capture
/// layer comes behind them.
pub proof fn steam_games_keep_their_layers(inherited: Seq<u8>)
    requires
        inherited.len() > 0,
        inherited.last() != ':' as u8,
    ensures
        steam_launch_bridge::appended_layers(inherited) == inherited + seq![':' as u8]
            + "VK_LAYER_REDUNAR_capture".spec_bytes(),
        steam_launch_bridge::appended_layers(Seq::empty())
            == "VK_LAYER_REDUNAR_capture".spec_bytes(),
{
    let layer = "VK_LAYER_REDUNAR_capture".spec_bytes();
    assert(Seq::<u8>::empty() + layer =~= layer);
    assert(inherited.push(58u8) + layer =~= inherited + seq![':' as u8] + layer);
}

/// A launch is planned where the program, the layer and the socket have absolute
/// paths without zero bytes, no argument holds one, the game can be captured,
/// and nothing else has set the path of the layers.
pub proof fn sound_launches_are_planned(
    executable: Seq<u8>,
    arguments: Seq<Seq<u8>>,
    layer_directory: Seq<u8>,
    socket: Seq<u8>,
    inherited: Map<Seq<u8>, Seq<u8>>,
)
    ensures
        launch::plan_fault(executable, arguments, layer_directory, socket, inherited) is None <==> {
            &&& paths::absolute(executable) && !paths::has_nul(executable)
            &&& paths::absolute(layer_directory) && !paths::has_nul(layer_directory)
            &&& paths::absolute(socket) && !paths::has_nul(socket)
            &&& forall|i: int|
                0 <= i < arguments.len() ==> !paths::has_nul(#[trigger] arguments[i])
            &&& launch::launch_support(executable, arguments)
                == launch::CaptureLaunchSupport::Supported
            &&& told(inherited, "VK_LAYER_PATH") is None
            &&& !layer_directory.contains(':' as u8)
        },
{
}

/// A game that Steam starts is not captured twice: where another capture has
/// left its variables or its layer, the launch is refused.
pub proof fn captures_are_not_mixed(state: CaptureState, inherited: Map<Seq<u8>, Seq<u8>>)
    requires
        told(inherited, "VK_LAYER_PATH") is Some || told(inherited, "REDUNAR_CAPTURE_SOCKET")
            is Some || told(inherited, "REDUNAR_CAPTURE_SESSION") is Some || told(
            inherited,
            "REDUNAR_CAPTURE_REPLY_SOCKET",
        ) is Some || told(inherited, "REDUNAR_CAPTURE_PROTOCOL") is Some || told(
            inherited,
            "REDUNAR_OVERLAY_VISIBLE",
        ) is Some || told(inherited, "REDUNAR_REPLAY_TRANSFER") is Some || told(
            inherited,
            "REDUNAR_GAMESCOPE",
        ) is Some || told(inherited, "REDUNAR_GAMEMODE") is Some || text::nonempty_parts(
            steam_launch_bridge::inherited_list(inherited, "VK_INSTANCE_LAYERS".spec_bytes()),
            ':' as u8,
        ).contains("VK_LAYER_REDUNAR_capture".spec_bytes()),
    ensures
        steam_launch_bridge::merge_fault(state, inherited) is Some,
{
    let names = steam_launch_bridge::managed_names();
    assert(names[0] == "REDUNAR_CAPTURE_SOCKET" && names[1] == "REDUNAR_CAPTURE_REPLY_SOCKET"
        && names[2] == "REDUNAR_CAPTURE_SESSION" && names[3] == "REDUNAR_CAPTURE_PROTOCOL"
        && names[4] == "REDUNAR_OVERLAY_VISIBLE" && names[13] == "REDUNAR_REPLAY_TRANSFER"
        && names[16] == "REDUNAR_GAMESCOPE" && names[17] == "REDUNAR_GAMEMODE");
    assert(names.len() == 18);
    if steam_launch_bridge::first_assigned(names, inherited) is None {
        assert forall|i: int| 0 <= i < names.len() implies !inherited.contains_key(
            (#[trigger] names[i]).spec_bytes(),
        ) by {
            steam_launch_bridge::lemma_none_assigned(names, inherited, names[i].spec_bytes());
        }
        assert(!inherited.contains_key(names[0].spec_bytes()));
        assert(!inherited.contains_key(names[1].spec_bytes()));
        assert(!inherited.contains_key(names[2].spec_bytes()));
        assert(!inherited.contains_key(names[3].spec_bytes()));
        assert(!inherited.contains_key(names[4].spec_bytes()));
        assert(!inherited.contains_key(names[13].spec_bytes()));
        assert(!inherited.contains_key(names[16].spec_bytes()));
        assert(!inherited.contains_key(names[17].spec_bytes()));
    }
}

/// Names are joined with a colon between each two, and come apart there again.
pub proof fn joined_names_come_apart(names: Seq<Seq<u8>>)
    requires
        names.len() > 0,
        forall|i: int| 0 <= i < names.len() ==> !(#[trigger] names[i]).contains(':' as u8),
    ensures
        text::fields_of(launch::colon_joined(names), ':' as u8) == names,
{
    lemma_colons(names);
    text::joined_fields_round_trip(names, 58u8);
}

proof fn lemma_colons(names: Seq<Seq<u8>>)
    ensures
        launch::colon_joined(names) == text::joined_fields(names, 58u8),
    decreases names.len(),
{
    if names.len() > 1 {
        lemma_colons(names.drop_last());
    }
}

/// The capture library is loaded once: a list that names its place already is
/// refused, and any other gets it in front.
pub proof fn the_library_is_loaded_once(library: Seq<u8>, list: Seq<u8>)
    ensures
        steam_launch_bridge::preload_list(library, None) is Ok ==> steam_launch_bridge::preload_list(
            library,
            None,
        ) == Ok::<Seq<u8>, &'static str>(library),
        (exists|i: int|
            0 <= i < text::nonempty_parts(list, ':' as u8).len() && paths::same_place(
                #[trigger] text::nonempty_parts(list, ':' as u8)[i],
                library,
            )) ==> steam_launch_bridge::preload_list(library, Some(list)) is Err,
{
}

/// A link that is handed to Steam makes the game Steam's as well, under a number
/// that only Steam knows.
pub proof fn links_are_handed_to_steam(
    executable: Seq<u8>,
    arguments: Seq<Seq<u8>>,
    at: int,
    rest: Seq<u8>,
)
    requires
        paths::final_name(executable) == Some("steam".spec_bytes()),
        0 <= at < arguments.len(),
        arguments[at] == "steam://".spec_bytes() + rest,
        vstd::utf8::valid_utf8(arguments[at]),
        !arguments.contains("-applaunch".spec_bytes()),
    ensures
        launch::ownership(executable, arguments)
            == (launch::GameLaunchProcessOwnership::ForwardedSteam { app_id: None }),
{
    let link = arguments[at];
    assert(link.take("steam://".spec_bytes().len() as int) =~= "steam://".spec_bytes());
    assert(launch::is_steam_link(arguments[at]));
    assert forall|i: int| 0 <= i < arguments.len() implies arguments[i]
        != "-applaunch".spec_bytes() by {
        assert(arguments.contains(arguments[i]));
    }
    text::lemma_first_index_is(arguments, "-applaunch".spec_bytes(), arguments.len() as int);
    text::only_the_case_of_bytes_may_differ("steam".spec_bytes(), "steam".spec_bytes());
}

/// A game that Steam starts is told of nothing that was not asked for.
pub proof fn steam_games_start_without_features(
    directory: Seq<u8>,
    socket: Seq<u8>,
    reply: Seq<u8>,
    session: Seq<u8>,
    defaults: OverlayDefaults,
)
    ensures
        ({
            let state = steam_launch_bridge::initial_state(
                directory,
                socket,
                reply,
                session,
                defaults,
            );
            &&& !state.overlay.visible && !state.gamescope && !state.gamemode
                && !state.replay.requested
            &&& state.opengl_library is None && state.overlay_telemetry_path is None
            &&& state.layer_manifest_directory == directory
            &&& state.capture_socket == socket && state.capture_reply_socket == reply
            &&& state.session == session
            &&& state.replay.frame_rate == ReplayFrameRate::Fps60
            &&& state.overlay.opacity_percent == defaults.opacity_percent
                && state.overlay.metric_bits == defaults.metric_bits
        }),
{
}

} // verus!
