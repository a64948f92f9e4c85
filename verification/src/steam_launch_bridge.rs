//! One-shot handoff of a capture environment to a game that Steam starts.
use crate::capture_session;
use crate::capture_session::CaptureSessionId;
use crate::environment;
use crate::environment::Environment;
use crate::launch;
use crate::launch::{
    OverlayLaunchConfig, ReplayTransferLaunchConfig, COLON, LD_PRELOAD_ENV,
    REDUNAR_CAPTURE_PROTOCOL_ENV, REDUNAR_CAPTURE_REPLY_SOCKET_ENV, REDUNAR_CAPTURE_SESSION_ENV,
    REDUNAR_CAPTURE_SOCKET_ENV, REDUNAR_OVERLAY_BRANDING_ENV, REDUNAR_OVERLAY_CORNER_ENV,
    REDUNAR_OVERLAY_LAYOUT_ENV, REDUNAR_OVERLAY_METRICS_ENV, REDUNAR_OVERLAY_OPACITY_ENV,
    REDUNAR_OVERLAY_PALETTE_ENV, REDUNAR_OVERLAY_PRESET_ENV, REDUNAR_OVERLAY_TELEMETRY_ENV,
    REDUNAR_OVERLAY_VISIBLE_ENV, REDUNAR_REPLAY_FRAME_RATE_ENV, REDUNAR_REPLAY_PRODUCTION_ENV,
    REDUNAR_REPLAY_TRANSFER_ENV, VK_ADD_LAYER_PATH_ENV, VK_INSTANCE_LAYERS_ENV, VK_LAYER_PATH_ENV,
    VULKAN_CAPTURE_LAYER_NAME,
};
use crate::overlay;
use crate::overlay::{OverlayCorner, OverlayDefaults, OverlayLayout, OverlayPalette, OverlayPreset};
use crate::paths;
use crate::replay_settings::ReplayFrameRate;
use crate::text;
use crate::wire;
use vstd::prelude::*;
use vstd::slice::slice_subrange;
use vstd::string::*;

verus! {

broadcast use vstd::string::group_string_axioms;

pub const STEAM_BROKER_SOCKET_FILE: &'static str = "steam-launch-v1.sock";

pub const STEAM_WIRE_MAGIC: &'static str = "RDSTML01";

pub const STEAM_WIRE_VERSION: u16 = 5;

pub const REQUEST_BYTES: usize = 18;

pub const MAX_PATH_BYTES: usize = 4096;

pub const MAX_RESPONSE_BYTES: usize = 20544;

pub const RESPONSE_DENIED: u8 = 0;

pub const RESPONSE_GRANTED: u8 = 1;

/// How long an activation may be published, in nanoseconds.
pub const MAX_STEAM_ACTIVATION_TTL: u64 = 300_000_000_000;

/// How long an activation is published unless told otherwise, in nanoseconds.
pub const DEFAULT_STEAM_ACTIVATION_TTL: u64 = 300_000_000_000;

pub const PRESSURE_VESSEL_FILESYSTEMS_RW_ENV: &'static str = "PRESSURE_VESSEL_FILESYSTEMS_RW";

pub const REDUNAR_GAMESCOPE_ENV: &'static str = "REDUNAR_GAMESCOPE";

pub const REDUNAR_GAMEMODE_ENV: &'static str = "REDUNAR_GAMEMODE";

/// A failed activation with its explanation.
#[derive(Clone, Debug, PartialEq, Eq)]
pub struct SteamActivationError {
    message: String,
}

impl View for SteamActivationError {
    type V = Seq<char>;

    closed spec fn view(&self) -> Seq<char> {
        self.message@
    }
}

impl SteamActivationError {
    pub fn new(message: &str) -> (result: Self)
        ensures
            result@ == message@,
    {
        SteamActivationError { message: message.to_owned() }
    }

    fn joined(start: &str, end: &str) -> (result: Self)
        ensures
            result@ == start@ + end@,
    {
        let mut message = start.to_owned();
        message.append(end);
        SteamActivationError { message }
    }

    /// The explanation.
    pub fn message(&self) -> (result: &str)
        ensures
            result@ == self@,
    {
        self.message.as_str()
    }
}

/// A Steam application number, which is never zero.
#[derive(Clone, Copy, Debug, PartialEq, Eq, Hash)]
pub struct SteamAppId {
    value: u32,
}

impl View for SteamAppId {
    type V = u32;

    closed spec fn view(&self) -> u32 {
        self.value
    }
}

impl SteamAppId {
    #[verifier::type_invariant]
    spec fn nonzero(self) -> bool {
        self.value != 0
    }

    pub fn new(value: u32) -> (result: Option<Self>)
        ensures
            match result {
                Some(app_id) => value != 0 && app_id@ == value,
                None => value == 0,
            },
    {
        if value == 0 {
            None
        } else {
            Some(SteamAppId { value })
        }
    }

    pub fn get(self) -> (result: u32)
        ensures
            result == self@,
            result != 0,
    {
        proof {
            use_type_invariant(&self);
        }
        self.value
    }
}

/// Whether a path can be handed over.
pub open spec fn wire_path(path: Seq<u8>) -> bool {
    paths::absolute(path) && !paths::has_nul(path) && path.len() <= MAX_PATH_BYTES
}

/// Why a path cannot be handed over.
pub open spec fn path_fault(label: Seq<char>, path: Seq<u8>) -> Option<Seq<char>> {
    if !paths::absolute(path) {
        Some(label + " must be absolute"@)
    } else if paths::has_nul(path) {
        Some(label + " contains a NUL byte"@)
    } else if path.len() > MAX_PATH_BYTES {
        Some(label + " exceeds the Steam bridge path bound"@)
    } else {
        None
    }
}

pub fn validate_wire_path(label: &str, path: &[u8]) -> (result: Result<(), SteamActivationError>)
    ensures
        match result {
            Ok(()) => path_fault(label@, path@) is None,
            Err(error) => path_fault(label@, path@) == Some(error@),
        },
{
    if !paths::is_absolute(path) {
        return Err(SteamActivationError::joined(label, " must be absolute"));
    }
    if paths::contains_nul(path) {
        return Err(SteamActivationError::joined(label, " contains a NUL byte"));
    }
    if path.len() > MAX_PATH_BYTES {
        return Err(SteamActivationError::joined(label, " exceeds the Steam bridge path bound"));
    }
    Ok(())
}

/// Closed capture state of one session.
#[derive(Debug)]
pub struct SteamCaptureEnvironment {
    layer_manifest_directory: Vec<u8>,
    opengl_library: Option<Vec<u8>>,
    capture_socket: Vec<u8>,
    capture_reply_socket: Vec<u8>,
    session_id: CaptureSessionId,
    overlay: OverlayLaunchConfig,
    gamescope: bool,
    gamemode: bool,
    overlay_telemetry_path: Option<Vec<u8>>,
    replay: ReplayTransferLaunchConfig,
}

/// What a [`SteamCaptureEnvironment`] holds.
#[verifier::ext_equal]
pub ghost struct CaptureState {
    pub layer_manifest_directory: Seq<u8>,
    pub opengl_library: Option<Seq<u8>>,
    pub capture_socket: Seq<u8>,
    pub capture_reply_socket: Seq<u8>,
    pub session: Seq<u8>,
    pub overlay: OverlayLaunchConfig,
    pub gamescope: bool,
    pub gamemode: bool,
    pub overlay_telemetry_path: Option<Seq<u8>>,
    pub replay: ReplayTransferLaunchConfig,
}

/// The bytes of an optional path.
pub open spec fn optional_bytes(path: Option<Vec<u8>>) -> Option<Seq<u8>> {
    match path {
        Some(path) => Some(path@),
        None => None,
    }
}

/// Whether an optional path can be handed over.
pub open spec fn optional_wire_path(path: Option<Seq<u8>>) -> bool {
    match path {
        Some(path) => wire_path(path),
        None => true,
    }
}

impl CaptureState {
    /// Every path can be handed over, and the session identifies one.
    pub open spec fn valid(self) -> bool {
        &&& wire_path(self.layer_manifest_directory)
        &&& optional_wire_path(self.opengl_library)
        &&& wire_path(self.capture_socket)
        &&& wire_path(self.capture_reply_socket)
        &&& capture_session::is_session(self.session)
        &&& optional_wire_path(self.overlay_telemetry_path)
    }
}

impl View for SteamCaptureEnvironment {
    type V = CaptureState;

    closed spec fn view(&self) -> CaptureState {
        CaptureState {
            layer_manifest_directory: self.layer_manifest_directory@,
            opengl_library: optional_bytes(self.opengl_library),
            capture_socket: self.capture_socket@,
            capture_reply_socket: self.capture_reply_socket@,
            session: self.session_id@,
            overlay: self.overlay,
            gamescope: self.gamescope,
            gamemode: self.gamemode,
            overlay_telemetry_path: optional_bytes(self.overlay_telemetry_path),
            replay: self.replay,
        }
    }
}

/// Why an environment cannot be made of three paths.
pub open spec fn paths_fault(
    layer_directory: Seq<u8>,
    socket: Seq<u8>,
    reply_socket: Seq<u8>,
) -> Option<Seq<char>> {
    match path_fault("layer manifest directory"@, layer_directory) {
        Some(fault) => Some(fault),
        None => match path_fault("capture socket"@, socket) {
            Some(fault) => Some(fault),
            None => path_fault("capture reply socket"@, reply_socket),
        },
    }
}

/// What an environment holds before it is configured.
pub open spec fn initial_state(
    layer_directory: Seq<u8>,
    socket: Seq<u8>,
    reply_socket: Seq<u8>,
    session: Seq<u8>,
    defaults: OverlayDefaults,
) -> CaptureState {
    CaptureState {
        layer_manifest_directory: layer_directory,
        opengl_library: None,
        capture_socket: socket,
        capture_reply_socket: reply_socket,
        session,
        overlay: OverlayLaunchConfig {
            visible: false,
            preset: OverlayPreset::Compact,
            layout: defaults.layout,
            palette: defaults.palette,
            branding_visible: true,
            corner: OverlayCorner::TopLeft,
            opacity_percent: defaults.opacity_percent,
            metric_bits: defaults.metric_bits,
        },
        gamescope: false,
        gamemode: false,
        overlay_telemetry_path: None,
        replay: ReplayTransferLaunchConfig { requested: false, frame_rate: ReplayFrameRate::Fps60 },
    }
}

/// Names that an inherited environment must not assign, in the order in which
/// they are looked for.
pub open spec fn managed_names() -> Seq<&'static str> {
    seq![
        REDUNAR_CAPTURE_SOCKET_ENV,
        REDUNAR_CAPTURE_REPLY_SOCKET_ENV,
        REDUNAR_CAPTURE_SESSION_ENV,
        REDUNAR_CAPTURE_PROTOCOL_ENV,
        REDUNAR_OVERLAY_VISIBLE_ENV,
        REDUNAR_OVERLAY_TELEMETRY_ENV,
        REDUNAR_OVERLAY_PRESET_ENV,
        REDUNAR_OVERLAY_LAYOUT_ENV,
        REDUNAR_OVERLAY_PALETTE_ENV,
        REDUNAR_OVERLAY_BRANDING_ENV,
        REDUNAR_OVERLAY_CORNER_ENV,
        REDUNAR_OVERLAY_OPACITY_ENV,
        REDUNAR_OVERLAY_METRICS_ENV,
        REDUNAR_REPLAY_TRANSFER_ENV,
        REDUNAR_REPLAY_PRODUCTION_ENV,
        REDUNAR_REPLAY_FRAME_RATE_ENV,
        REDUNAR_GAMESCOPE_ENV,
        REDUNAR_GAMEMODE_ENV,
    ]
}

fn managed_environment_names() -> (result: Vec<&'static str>)
    ensures
        result@ == managed_names(),
{
    let names = vec![
        REDUNAR_CAPTURE_SOCKET_ENV,
        REDUNAR_CAPTURE_REPLY_SOCKET_ENV,
        REDUNAR_CAPTURE_SESSION_ENV,
        REDUNAR_CAPTURE_PROTOCOL_ENV,
        REDUNAR_OVERLAY_VISIBLE_ENV,
        REDUNAR_OVERLAY_TELEMETRY_ENV,
        REDUNAR_OVERLAY_PRESET_ENV,
        REDUNAR_OVERLAY_LAYOUT_ENV,
        REDUNAR_OVERLAY_PALETTE_ENV,
        REDUNAR_OVERLAY_BRANDING_ENV,
        REDUNAR_OVERLAY_CORNER_ENV,
        REDUNAR_OVERLAY_OPACITY_ENV,
        REDUNAR_OVERLAY_METRICS_ENV,
        REDUNAR_REPLAY_TRANSFER_ENV,
        REDUNAR_REPLAY_PRODUCTION_ENV,
        REDUNAR_REPLAY_FRAME_RATE_ENV,
        REDUNAR_GAMESCOPE_ENV,
        REDUNAR_GAMEMODE_ENV,
    ];
    assert(names@ =~= managed_names());
    names
}

/// The first of some names that an environment assigns.
pub open spec fn first_assigned(
    names: Seq<&'static str>,
    inherited: Map<Seq<u8>, Seq<u8>>,
) -> Option<&'static str>
    decreases names.len(),
{
    if names.len() == 0 {
        None
    } else if inherited.contains_key(names[0].spec_bytes()) {
        Some(names[0])
    } else {
        first_assigned(names.skip(1), inherited)
    }
}

fn find_assigned(names: &[&'static str], inherited: &Environment) -> (result: Option<&'static str>)
    ensures
        result == first_assigned(names@, inherited@),
{
    let mut index: usize = 0;
    assert(names@.skip(0) =~= names@);
    while index < names.len()
        invariant
            index <= names@.len(),
            first_assigned(names@, inherited@) == first_assigned(
                names@.skip(index as int),
                inherited@,
            ),
        decreases names@.len() - index,
    {
        assert(names@.skip(index as int)[0] == names@[index as int]);
        assert(names@.skip(index as int).skip(1) =~= names@.skip(index + 1));
        if inherited.contains(names[index].as_bytes()) {
            return Some(names[index]);
        }
        index = index + 1;
    }
    None
}

/// The inherited value of a list, or nothing.
pub open spec fn inherited_list(inherited: Map<Seq<u8>, Seq<u8>>, name: Seq<u8>) -> Seq<u8> {
    match environment::value_of(inherited, name) {
        Some(value) => value,
        None => Seq::empty(),
    }
}

/// The inherited layers, byte for byte, and the capture layer behind them.
pub open spec fn appended_layers(inherited: Seq<u8>) -> Seq<u8> {
    if inherited.len() > 0 && inherited.last() != COLON {
        inherited.push(COLON) + VULKAN_CAPTURE_LAYER_NAME.spec_bytes()
    } else {
        inherited + VULKAN_CAPTURE_LAYER_NAME.spec_bytes()
    }
}

pub fn enabled_vulkan_layers(inherited_layers: &[u8]) -> (result: Vec<u8>)
    ensures
        result@ == appended_layers(inherited_layers@),
{
    let mut enabled = vstd::slice::slice_to_vec(inherited_layers);
    if enabled.len() > 0 && enabled[enabled.len() - 1] != COLON {
        enabled.push(COLON);
    }
    enabled.extend_from_slice(VULKAN_CAPTURE_LAYER_NAME.as_bytes());
    enabled
}

/// Whether one path of a list is the same place as a library.
pub open spec fn lists_library(list: Seq<u8>, library: Seq<u8>) -> bool {
    exists|i: int|
        0 <= i < text::nonempty_parts(list, COLON).len() && paths::same_place(
            #[trigger] text::nonempty_parts(list, COLON)[i],
            library,
        )
}

fn find_library(list: &[u8], library: &[u8]) -> (result: bool)
    ensures
        result == lists_library(list@, library@),
{
    let parts = text::split_nonempty(list, COLON);
    let ghost all = text::nonempty_parts(list@, COLON);
    let mut index: usize = 0;
    while index < parts.len()
        invariant
            index <= parts@.len(),
            all == text::nonempty_parts(list@, COLON),
            all == text::byte_views(parts@),
            forall|i: int| 0 <= i < index ==> !paths::same_place(#[trigger] all[i], library@),
        decreases parts@.len() - index,
    {
        assert(all[index as int] == parts@[index as int]@);
        if paths::is_same_place(parts[index].as_slice(), library) {
            assert(paths::same_place(
                text::nonempty_parts(list@, COLON)[index as int],
                library@,
            ));
            return true;
        }
        index = index + 1;
    }
    false
}

fn lists_capture_layer(layers: &[u8]) -> (result: bool)
    ensures
        result == text::nonempty_parts(layers@, COLON).contains(
            VULKAN_CAPTURE_LAYER_NAME.spec_bytes(),
        ),
{
    let parts = text::split_nonempty(layers, COLON);
    let ghost all = text::nonempty_parts(layers@, COLON);
    let mut index: usize = 0;
    while index < parts.len()
        invariant
            index <= parts@.len(),
            all == text::nonempty_parts(layers@, COLON),
            all == text::byte_views(parts@),
            forall|i: int|
                0 <= i < index ==> #[trigger] all[i] != VULKAN_CAPTURE_LAYER_NAME.spec_bytes(),
        decreases parts@.len() - index,
    {
        assert(all[index as int] == parts@[index as int]@);
        if text::same_bytes(parts[index].as_slice(), VULKAN_CAPTURE_LAYER_NAME.as_bytes()) {
            return true;
        }
        index = index + 1;
    }
    false
}

/// The library in front of the inherited preload list.
pub open spec fn preload_list(
    library: Seq<u8>,
    inherited: Option<Seq<u8>>,
) -> Result<Seq<u8>, &'static str> {
    if inherited is Some && lists_library(inherited->0, library) {
        Err("another Redunar OpenGL interposer is already active")
    } else {
        match launch::prepended(library, inherited) {
            Some(list) => Ok(list),
            None => Err("LD_PRELOAD contains an invalid path list"),
        }
    }
}

pub fn prepend_library_path(library: &[u8], inherited: Option<&[u8]>) -> (result: Result<
    Vec<u8>,
    SteamActivationError,
>)
    ensures
        ({
            let list = match inherited {
                Some(list) => Some(list@),
                None => None,
            };
            match result {
                Ok(joined) => preload_list(library@, list) == Ok::<Seq<u8>, &'static str>(joined@),
                Err(error) => preload_list(library@, list) matches Err(fault) && error@ == fault@,
            }
        }),
{
    if let Some(list) = inherited {
        if find_library(list, library) {
            return Err(
                SteamActivationError::new("another Redunar OpenGL interposer is already active"),
            );
        }
    }
    match launch::prepend_search_path(library, inherited) {
        Some(joined) => Ok(joined),
        None => Err(SteamActivationError::new("LD_PRELOAD contains an invalid path list")),
    }
}

/// The directory of the capture socket in front of the inherited paths that
/// the runtime container shares.
pub open spec fn shared_paths(
    socket: Seq<u8>,
    inherited: Map<Seq<u8>, Seq<u8>>,
) -> Result<Seq<u8>, &'static str> {
    match paths::parent_of(socket) {
        None => Err("capture socket has no private parent directory"),
        Some(directory) => match launch::prepended(
            directory,
            environment::value_of(inherited, PRESSURE_VESSEL_FILESYSTEMS_RW_ENV.spec_bytes()),
        ) {
            Some(list) => Ok(list),
            None => Err("PRESSURE_VESSEL_FILESYSTEMS_RW contains an invalid path list"),
        },
    }
}

pub fn pressure_vessel_write_paths(capture_socket: &[u8], inherited: &Environment) -> (result:
    Result<Vec<u8>, SteamActivationError>)
    requires
        paths::absolute(capture_socket@),
    ensures
        match result {
            Ok(list) => shared_paths(capture_socket@, inherited@) == Ok::<Seq<u8>, &'static str>(
                list@,
            ),
            Err(error) => shared_paths(capture_socket@, inherited@) matches Err(fault) && error@
                == fault@,
        },
{
    match paths::parent(capture_socket) {
        None => Err(SteamActivationError::new("capture socket has no private parent directory")),
        Some(directory) => match launch::prepend_search_path(
            directory.as_slice(),
            inherited.get(PRESSURE_VESSEL_FILESYSTEMS_RW_ENV.as_bytes()),
        ) {
            Some(list) => Ok(list),
            None => Err(
                SteamActivationError::new(
                    "PRESSURE_VESSEL_FILESYSTEMS_RW contains an invalid path list",
                ),
            ),
        },
    }
}

/// Why a capture state cannot be merged into an inherited environment.
pub open spec fn merge_fault(
    state: CaptureState,
    inherited: Map<Seq<u8>, Seq<u8>>,
) -> Option<Seq<char>> {
    if inherited.contains_key(VK_LAYER_PATH_ENV.spec_bytes()) {
        Some("VK_LAYER_PATH conflicts with the private Steam activation"@)
    } else if first_assigned(managed_names(), inherited) is Some {
        Some(
            "inherited "@ + first_assigned(managed_names(), inherited)->0@
                + " conflicts with the private Steam activation"@,
        )
    } else if text::nonempty_parts(
        inherited_list(inherited, VK_INSTANCE_LAYERS_ENV.spec_bytes()),
        COLON,
    ).contains(VULKAN_CAPTURE_LAYER_NAME.spec_bytes()) {
        Some("another Redunar Vulkan layer is already active"@)
    } else if state.layer_manifest_directory.contains(COLON) {
        Some("VK_ADD_LAYER_PATH contains an invalid path list"@)
    } else {
        match shared_paths(state.capture_socket, inherited) {
            Err(fault) => Some(fault@),
            Ok(_) => match state.opengl_library {
                None => None,
                Some(library) => match preload_list(
                    library,
                    environment::value_of(inherited, LD_PRELOAD_ENV.spec_bytes()),
                ) {
                    Err(fault) => Some(fault@),
                    Ok(_) => None,
                },
            },
        }
    }
}

/// The assignments that bring a capture state into an inherited environment.
pub open spec fn merged_variables(
    state: CaptureState,
    protocol: u16,
    inherited: Map<Seq<u8>, Seq<u8>>,
) -> Map<Seq<u8>, Seq<u8>> {
    let lists = Map::<Seq<u8>, Seq<u8>>::empty().insert(
        VK_ADD_LAYER_PATH_ENV.spec_bytes(),
        launch::prepended(
            state.layer_manifest_directory,
            environment::value_of(inherited, VK_ADD_LAYER_PATH_ENV.spec_bytes()),
        )->0,
    ).insert(
        PRESSURE_VESSEL_FILESYSTEMS_RW_ENV.spec_bytes(),
        shared_paths(state.capture_socket, inherited)->Ok_0,
    ).insert(
        VK_INSTANCE_LAYERS_ENV.spec_bytes(),
        appended_layers(inherited_list(inherited, VK_INSTANCE_LAYERS_ENV.spec_bytes())),
    );
    let preloaded = match state.opengl_library {
        None => lists,
        Some(library) => lists.insert(
            LD_PRELOAD_ENV.spec_bytes(),
            preload_list(
                library,
                environment::value_of(inherited, LD_PRELOAD_ENV.spec_bytes()),
            )->Ok_0,
        ),
    };
    let captured = preloaded.insert(
        REDUNAR_CAPTURE_SOCKET_ENV.spec_bytes(),
        state.capture_socket,
    ).insert(
        REDUNAR_CAPTURE_REPLY_SOCKET_ENV.spec_bytes(),
        state.capture_reply_socket,
    ).insert(
        REDUNAR_CAPTURE_SESSION_ENV.spec_bytes(),
        vstd::utf8::encode_utf8(text::hex_text(state.session)),
    ).insert(
        REDUNAR_CAPTURE_PROTOCOL_ENV.spec_bytes(),
        vstd::utf8::encode_utf8(text::decimal(protocol as nat)),
    );
    let overlaid = launch::overlay_variables(captured, state.overlay).insert(
        REDUNAR_GAMESCOPE_ENV.spec_bytes(),
        overlay::switch_text(state.gamescope).spec_bytes(),
    ).insert(
        REDUNAR_GAMEMODE_ENV.spec_bytes(),
        overlay::switch_text(state.gamemode).spec_bytes(),
    );
    let measured = match state.overlay_telemetry_path {
        None => overlaid,
        Some(path) => overlaid.insert(REDUNAR_OVERLAY_TELEMETRY_ENV.spec_bytes(), path),
    };
    launch::replay_variables(measured, state.replay)
}

/// Whether one of some names is assigned to.
pub open spec fn is_one_of(name: Seq<u8>, names: Seq<&'static str>) -> bool {
    exists|i: int| 0 <= i < names.len() && name == (#[trigger] names[i]).spec_bytes()
}

/// The lists that updates extend.
pub open spec fn extended_names() -> Seq<&'static str> {
    seq![
        VK_ADD_LAYER_PATH_ENV,
        PRESSURE_VESSEL_FILESYSTEMS_RW_ENV,
        VK_INSTANCE_LAYERS_ENV,
        LD_PRELOAD_ENV,
    ]
}

/// None of some names is assigned to where there is no first one.
pub proof fn lemma_none_assigned(
    names: Seq<&'static str>,
    inherited: Map<Seq<u8>, Seq<u8>>,
    name: Seq<u8>,
)
    requires
        first_assigned(names, inherited) is None,
        is_one_of(name, names),
    ensures
        !inherited.contains_key(name),
    decreases names.len(),
{
    let at = choose|i: int| 0 <= i < names.len() && name == (#[trigger] names[i]).spec_bytes();
    if at > 0 {
        assert(names.skip(1)[at - 1] == names[at]);
        lemma_none_assigned(names.skip(1), inherited, name);
    }
}

proof fn lemma_extended_names_differ()
    ensures
        VK_ADD_LAYER_PATH_ENV.spec_bytes().len() == 17,
        PRESSURE_VESSEL_FILESYSTEMS_RW_ENV.spec_bytes().len() == 30,
        VK_INSTANCE_LAYERS_ENV.spec_bytes().len() == 18,
        LD_PRELOAD_ENV.spec_bytes().len() == 10,
{
    reveal_strlit("VK_ADD_LAYER_PATH");
    reveal_strlit("PRESSURE_VESSEL_FILESYSTEMS_RW");
    reveal_strlit("VK_INSTANCE_LAYERS");
    reveal_strlit("LD_PRELOAD");
    assert(VK_ADD_LAYER_PATH_ENV.is_ascii());
    assert(PRESSURE_VESSEL_FILESYSTEMS_RW_ENV.is_ascii());
    assert(VK_INSTANCE_LAYERS_ENV.is_ascii());
    assert(LD_PRELOAD_ENV.is_ascii());
}

/// Updates assign to nothing but the fixed variables of a capture and the
/// lists that they extend.
pub proof fn updates_are_fixed(
    state: CaptureState,
    protocol: u16,
    inherited: Map<Seq<u8>, Seq<u8>>,
    name: Seq<u8>,
)
    requires
        merged_variables(state, protocol, inherited).contains_key(name),
    ensures
        is_one_of(name, managed_names()) || is_one_of(name, extended_names()),
{
    let managed = managed_names();
    let extended = extended_names();
    assert(name == extended[0].spec_bytes() || name == extended[1].spec_bytes() || name
        == extended[2].spec_bytes() || name == extended[3].spec_bytes() || name
        == managed[0].spec_bytes() || name == managed[1].spec_bytes() || name
        == managed[2].spec_bytes() || name == managed[3].spec_bytes() || name
        == managed[4].spec_bytes() || name == managed[5].spec_bytes() || name
        == managed[6].spec_bytes() || name == managed[7].spec_bytes() || name
        == managed[8].spec_bytes() || name == managed[9].spec_bytes() || name
        == managed[10].spec_bytes() || name == managed[11].spec_bytes() || name
        == managed[12].spec_bytes() || name == managed[13].spec_bytes() || name
        == managed[14].spec_bytes() || name == managed[15].spec_bytes() || name
        == managed[16].spec_bytes() || name == managed[17].spec_bytes());
}

proof fn lemma_layers_are_kept(inherited: Seq<u8>)
    ensures
        inherited.is_prefix_of(appended_layers(inherited)),
{
    let all = appended_layers(inherited);
    assert(all.take(inherited.len() as int) =~= inherited);
}

proof fn lemma_paths_are_kept(directory: Seq<u8>, list: Seq<u8>)
    requires
        launch::prepended(directory, Some(list)) is Some,
    ensures
        list.is_suffix_of(launch::prepended(directory, Some(list))->0),
{
    let all = launch::prepended(directory, Some(list))->0;
    assert(all.skip(all.len() - list.len()) =~= list);
}

/// Variables of a capture that are not lists take no list's place.
proof fn lemma_lists_stay(
    state: CaptureState,
    protocol: u16,
    inherited: Map<Seq<u8>, Seq<u8>>,
    name: Seq<u8>,
)
    requires
        !is_one_of(name, managed_names()),
        merged_variables(state, protocol, inherited).contains_key(name),
    ensures
        merged_variables(state, protocol, inherited)[name] == (if name
            == VK_INSTANCE_LAYERS_ENV.spec_bytes() {
            appended_layers(inherited_list(inherited, name))
        } else if name == VK_ADD_LAYER_PATH_ENV.spec_bytes() {
            launch::prepended(
                state.layer_manifest_directory,
                environment::value_of(inherited, name),
            )->0
        } else if name == LD_PRELOAD_ENV.spec_bytes() {
            preload_list(state.opengl_library->0, environment::value_of(inherited, name))->Ok_0
        } else {
            shared_paths(state.capture_socket, inherited)->Ok_0
        }),
        name == LD_PRELOAD_ENV.spec_bytes() ==> state.opengl_library is Some,
{
    let managed = managed_names();
    assert(name != managed[0].spec_bytes() && name != managed[1].spec_bytes() && name
        != managed[2].spec_bytes() && name != managed[3].spec_bytes() && name
        != managed[4].spec_bytes() && name != managed[5].spec_bytes() && name
        != managed[6].spec_bytes() && name != managed[7].spec_bytes() && name
        != managed[8].spec_bytes() && name != managed[9].spec_bytes() && name
        != managed[10].spec_bytes() && name != managed[11].spec_bytes() && name
        != managed[12].spec_bytes() && name != managed[13].spec_bytes() && name
        != managed[14].spec_bytes() && name != managed[15].spec_bytes() && name
        != managed[16].spec_bytes() && name != managed[17].spec_bytes());
    lemma_extended_names_differ();
}

/// Updates keep what a game inherits. An inherited variable that they assign
/// to is a list, whose inherited value stays in it byte for byte: at the front
/// of the layers, at the end of a search path.
pub proof fn inherited_variables_are_kept(
    state: CaptureState,
    protocol: u16,
    inherited: Map<Seq<u8>, Seq<u8>>,
    name: Seq<u8>,
)
    requires
        merge_fault(state, inherited) is None,
        inherited.contains_key(name),
        merged_variables(state, protocol, inherited).contains_key(name),
    ensures
        is_one_of(name, extended_names()),
        ({
            let value = merged_variables(state, protocol, inherited)[name];
            if name == VK_INSTANCE_LAYERS_ENV.spec_bytes() {
                inherited[name].is_prefix_of(value)
            } else {
                inherited[name].is_suffix_of(value)
            }
        }),
{
    updates_are_fixed(state, protocol, inherited, name);
    let managed = managed_names();
    if is_one_of(name, managed) {
        lemma_none_assigned(managed, inherited, name);
    }
    lemma_lists_stay(state, protocol, inherited, name);
    let value = inherited[name];
    if name == VK_INSTANCE_LAYERS_ENV.spec_bytes() {
        lemma_layers_are_kept(value);
    } else if name == VK_ADD_LAYER_PATH_ENV.spec_bytes() {
        lemma_paths_are_kept(state.layer_manifest_directory, value);
    } else if name == LD_PRELOAD_ENV.spec_bytes() {
        lemma_paths_are_kept(state.opengl_library->0, value);
    } else {
        assert(name == PRESSURE_VESSEL_FILESYSTEMS_RW_ENV.spec_bytes());
        lemma_paths_are_kept(paths::parent_of(state.capture_socket)->0, value);
    }
}

impl SteamCaptureEnvironment {
    #[verifier::type_invariant]
    spec fn holds_wire_paths(self) -> bool {
        self@.valid()
    }

    /// The private capture environment of one session, with the overlay at
    /// its defaults.
    pub fn new(
        layer_manifest_directory: Vec<u8>,
        capture_socket: Vec<u8>,
        capture_reply_socket: Vec<u8>,
        session_id: CaptureSessionId,
        defaults: OverlayDefaults,
    ) -> (result: Result<Self, SteamActivationError>)
        ensures
            ({
                let fault = paths_fault(
                    layer_manifest_directory@,
                    capture_socket@,
                    capture_reply_socket@,
                );
                match result {
                    Ok(environment) => fault is None && environment@ == initial_state(
                        layer_manifest_directory@,
                        capture_socket@,
                        capture_reply_socket@,
                        session_id@,
                        defaults,
                    ),
                    Err(error) => fault == Some(error@),
                }
            }),
    {
        if let Err(error) = validate_wire_path(
            "layer manifest directory",
            layer_manifest_directory.as_slice(),
        ) {
            return Err(error);
        }
        if let Err(error) = validate_wire_path("capture socket", capture_socket.as_slice()) {
            return Err(error);
        }
        if let Err(error) = validate_wire_path(
            "capture reply socket",
            capture_reply_socket.as_slice(),
        ) {
            return Err(error);
        }
        proof {
            use_type_invariant(&session_id);
        }
        Ok(
            SteamCaptureEnvironment {
                layer_manifest_directory,
                opengl_library: None,
                capture_socket,
                capture_reply_socket,
                session_id,
                overlay: OverlayLaunchConfig::new(false, defaults),
                gamescope: false,
                gamemode: false,
                overlay_telemetry_path: None,
                replay: ReplayTransferLaunchConfig::new(false, ReplayFrameRate::Fps60),
            },
        )
    }

    /// Adds the private interposer for native OpenGL games.
    pub fn with_opengl_library(self, path: Vec<u8>) -> (result: Result<Self, SteamActivationError>)
        ensures
            match result {
                Ok(environment) => wire_path(path@) && environment@ == (CaptureState {
                    opengl_library: Some(path@),
                    ..self@
                }),
                Err(error) => path_fault("OpenGL capture library"@, path@) == Some(error@),
            },
    {
        if let Err(error) = validate_wire_path("OpenGL capture library", path.as_slice()) {
            return Err(error);
        }
        proof {
            use_type_invariant(&self);
        }
        let mut environment = self;
        environment.opengl_library = Some(path);
        Ok(environment)
    }

    pub fn with_overlay(
        self,
        visible: bool,
        preset: OverlayPreset,
        corner: OverlayCorner,
        opacity_percent: u8,
        metric_bits: u16,
    ) -> (result: Self)
        ensures
            result@ == (CaptureState {
                overlay: OverlayLaunchConfig {
                    visible,
                    preset,
                    corner,
                    opacity_percent,
                    metric_bits,
                    ..self@.overlay
                },
                ..self@
            }),
    {
        proof {
            use_type_invariant(&self);
        }
        let mut environment = self;
        let mut overlay = environment.overlay;
        overlay.visible = visible;
        overlay.preset = preset;
        overlay.corner = corner;
        overlay.opacity_percent = opacity_percent;
        overlay.metric_bits = metric_bits;
        environment.overlay = overlay;
        environment
    }

    pub fn with_gamescope(self, enabled: bool) -> (result: Self)
        ensures
            result@ == (CaptureState { gamescope: enabled, ..self@ }),
    {
        proof {
            use_type_invariant(&self);
        }
        let mut environment = self;
        environment.gamescope = enabled;
        environment
    }

    pub fn with_overlay_style(self, layout: OverlayLayout, palette: OverlayPalette) -> (result: Self)
        ensures
            result@ == (CaptureState {
                overlay: OverlayLaunchConfig { layout, palette, ..self@.overlay },
                ..self@
            }),
    {
        proof {
            use_type_invariant(&self);
        }
        let mut environment = self;
        let mut overlay = environment.overlay;
        overlay.layout = layout;
        overlay.palette = palette;
        environment.overlay = overlay;
        environment
    }

    pub fn with_overlay_branding(self, visible: bool) -> (result: Self)
        ensures
            result@ == (CaptureState {
                overlay: OverlayLaunchConfig { branding_visible: visible, ..self@.overlay },
                ..self@
            }),
    {
        proof {
            use_type_invariant(&self);
        }
        let mut environment = self;
        let mut overlay = environment.overlay;
        overlay.branding_visible = visible;
        environment.overlay = overlay;
        environment
    }

    pub fn with_gamemode(self, enabled: bool) -> (result: Self)
        ensures
            result@ == (CaptureState { gamemode: enabled, ..self@ }),
    {
        proof {
            use_type_invariant(&self);
        }
        let mut environment = self;
        environment.gamemode = enabled;
        environment
    }

    /// Adds the telemetry file that the overlay reads.
    pub fn with_overlay_telemetry_path(self, path: Vec<u8>) -> (result: Result<
        Self,
        SteamActivationError,
    >)
        ensures
            match result {
                Ok(environment) => wire_path(path@) && environment@ == (CaptureState {
                    overlay_telemetry_path: Some(path@),
                    ..self@
                }),
                Err(error) => path_fault("overlay telemetry file"@, path@) == Some(error@),
            },
    {
        if let Err(error) = validate_wire_path("overlay telemetry file", path.as_slice()) {
            return Err(error);
        }
        proof {
            use_type_invariant(&self);
        }
        let mut environment = self;
        environment.overlay_telemetry_path = Some(path);
        Ok(environment)
    }

    pub fn with_replay_frame_rate(self, frame_rate: ReplayFrameRate) -> (result: Self)
        ensures
            result@ == (CaptureState {
                replay: ReplayTransferLaunchConfig { frame_rate, ..self@.replay },
                ..self@
            }),
    {
        proof {
            use_type_invariant(&self);
        }
        let mut environment = self;
        environment.replay =
            ReplayTransferLaunchConfig::new(environment.replay.is_requested(), frame_rate);
        environment
    }

    pub fn with_replay_requested(self, requested: bool) -> (result: Self)
        ensures
            result@ == (CaptureState {
                replay: ReplayTransferLaunchConfig { requested, ..self@.replay },
                ..self@
            }),
    {
        proof {
            use_type_invariant(&self);
        }
        let mut environment = self;
        environment.replay =
            ReplayTransferLaunchConfig::new(requested, environment.replay.frame_rate());
        environment
    }

    /// The assignments that bring this state into the environment that a
    /// wrapper inherited. `protocol` is the version of the capture protocol.
    /// Inherited search paths and layers are kept byte for byte, and an
    /// inherited assignment that would be ambiguous is refused.
    pub fn environment_updates(&self, protocol: u16, inherited: &Environment) -> (result: Result<
        Environment,
        SteamActivationError,
    >)
        ensures
            match result {
                Ok(updates) => merge_fault(self@, inherited@) is None && updates@
                    == merged_variables(self@, protocol, inherited@),
                Err(error) => merge_fault(self@, inherited@) == Some(error@),
            },
    {
        proof {
            use_type_invariant(self);
        }
        if inherited.contains(VK_LAYER_PATH_ENV.as_bytes()) {
            return Err(
                SteamActivationError::new(
                    "VK_LAYER_PATH conflicts with the private Steam activation",
                ),
            );
        }
        let names = managed_environment_names();
        if let Some(name) = find_assigned(names.as_slice(), inherited) {
            let mut message = "inherited ".to_owned();
            message.append(name);
            return Err(
                SteamActivationError::joined(
                    message.as_str(),
                    " conflicts with the private Steam activation",
                ),
            );
        }
        let nothing: Vec<u8> = Vec::new();
        assert(nothing@ =~= Seq::<u8>::empty());
        let inherited_layers: &[u8] = match inherited.get(VK_INSTANCE_LAYERS_ENV.as_bytes()) {
            Some(layers) => layers,
            None => nothing.as_slice(),
        };
        if lists_capture_layer(inherited_layers) {
            return Err(SteamActivationError::new("another Redunar Vulkan layer is already active"));
        }
        let layer_paths = match launch::prepend_search_path(
            self.layer_manifest_directory.as_slice(),
            inherited.get(VK_ADD_LAYER_PATH_ENV.as_bytes()),
        ) {
            Some(list) => list,
            None => {
                return Err(
                    SteamActivationError::new("VK_ADD_LAYER_PATH contains an invalid path list"),
                );
            },
        };
        let shared_write_paths = match pressure_vessel_write_paths(
            self.capture_socket.as_slice(),
            inherited,
        ) {
            Ok(list) => list,
            Err(error) => {
                return Err(error);
            },
        };
        let enabled_layers = enabled_vulkan_layers(inherited_layers);
        let mut updates = Environment::new();
        updates.set(VK_ADD_LAYER_PATH_ENV, layer_paths.as_slice());
        updates.set(PRESSURE_VESSEL_FILESYSTEMS_RW_ENV, shared_write_paths.as_slice());
        updates.set(VK_INSTANCE_LAYERS_ENV, enabled_layers.as_slice());
        if let Some(library) = &self.opengl_library {
            match prepend_library_path(
                library.as_slice(),
                inherited.get(LD_PRELOAD_ENV.as_bytes()),
            ) {
                Ok(list) => {
                    updates.set(LD_PRELOAD_ENV, list.as_slice());
                },
                Err(error) => {
                    return Err(error);
                },
            }
        }
        let session = self.session_id.to_hex();
        updates.set(REDUNAR_CAPTURE_SOCKET_ENV, self.capture_socket.as_slice());
        updates.set(REDUNAR_CAPTURE_REPLY_SOCKET_ENV, self.capture_reply_socket.as_slice());
        updates.set(REDUNAR_CAPTURE_SESSION_ENV, session.as_str().as_bytes());
        launch::set_number(&mut updates, REDUNAR_CAPTURE_PROTOCOL_ENV, protocol as u64);
        launch::set_overlay(&mut updates, self.overlay);
        updates.set(REDUNAR_GAMESCOPE_ENV, overlay::switch_name(self.gamescope).as_bytes());
        updates.set(REDUNAR_GAMEMODE_ENV, overlay::switch_name(self.gamemode).as_bytes());
        if let Some(path) = &self.overlay_telemetry_path {
            updates.set(REDUNAR_OVERLAY_TELEMETRY_ENV, path.as_slice());
        }
        launch::set_replay(&mut updates, self.replay);
        Ok(updates)
    }
}

/// Bounds on overlay fields that come over the wire.
#[derive(Clone, Copy, Debug, PartialEq, Eq, Structural)]
pub struct OverlayRules {
    pub minimum_opacity_percent: u8,
    pub maximum_opacity_percent: u8,
    /// The metric bits that have a meaning.
    pub known_metrics: u16,
}

impl OverlayRules {
    pub open spec fn allows_opacity(self, percent: u8) -> bool {
        self.minimum_opacity_percent <= percent <= self.maximum_opacity_percent
    }

    pub open spec fn allows_metrics(self, bits: u16) -> bool {
        bits & !self.known_metrics == 0
    }
}

/// The number of a preset on the wire.
pub open spec fn preset_number(preset: OverlayPreset) -> u8 {
    match preset {
        OverlayPreset::Compact => 1,
        OverlayPreset::FpsOnly => 2,
        OverlayPreset::Detailed => 3,
        OverlayPreset::Custom => 4,
    }
}

fn overlay_preset_wire(preset: OverlayPreset) -> (result: u8)
    ensures
        result == preset_number(preset),
{
    match preset {
        OverlayPreset::Compact => 1,
        OverlayPreset::FpsOnly => 2,
        OverlayPreset::Detailed => 3,
        OverlayPreset::Custom => 4,
    }
}

/// The preset of a number.
pub open spec fn preset_of(value: u8) -> Option<OverlayPreset> {
    if value == 1 {
        Some(OverlayPreset::Compact)
    } else if value == 2 {
        Some(OverlayPreset::FpsOnly)
    } else if value == 3 {
        Some(OverlayPreset::Detailed)
    } else if value == 4 {
        Some(OverlayPreset::Custom)
    } else {
        None
    }
}

fn decode_overlay_preset(value: u8) -> (result: Option<OverlayPreset>)
    ensures
        result == preset_of(value),
{
    match value {
        1 => Some(OverlayPreset::Compact),
        2 => Some(OverlayPreset::FpsOnly),
        3 => Some(OverlayPreset::Detailed),
        4 => Some(OverlayPreset::Custom),
        _ => None,
    }
}

/// The number of a layout on the wire.
pub open spec fn layout_number(layout: OverlayLayout) -> u8 {
    match layout {
        OverlayLayout::Grid => 1,
        OverlayLayout::Ribbon => 2,
        OverlayLayout::Telemetry => 3,
    }
}

fn overlay_layout_wire(layout: OverlayLayout) -> (result: u8)
    ensures
        result == layout_number(layout),
{
    match layout {
        OverlayLayout::Grid => 1,
        OverlayLayout::Ribbon => 2,
        OverlayLayout::Telemetry => 3,
    }
}

/// The layout of a number.
pub open spec fn layout_of(value: u8) -> Option<OverlayLayout> {
    if value == 1 {
        Some(OverlayLayout::Grid)
    } else if value == 2 {
        Some(OverlayLayout::Ribbon)
    } else if value == 3 {
        Some(OverlayLayout::Telemetry)
    } else {
        None
    }
}

fn decode_overlay_layout(value: u8) -> (result: Option<OverlayLayout>)
    ensures
        result == layout_of(value),
{
    match value {
        1 => Some(OverlayLayout::Grid),
        2 => Some(OverlayLayout::Ribbon),
        3 => Some(OverlayLayout::Telemetry),
        _ => None,
    }
}

/// The number of a palette on the wire.
pub open spec fn palette_number(palette: OverlayPalette) -> u8 {
    match palette {
        OverlayPalette::Redunar => 1,
        OverlayPalette::Glacier => 2,
        OverlayPalette::Ember => 3,
        OverlayPalette::Mint => 4,
        OverlayPalette::Mono => 5,
        OverlayPalette::Amethyst => 6,
        OverlayPalette::Solar => 7,
        OverlayPalette::Rose => 8,
    }
}

fn overlay_palette_wire(palette: OverlayPalette) -> (result: u8)
    ensures
        result == palette_number(palette),
{
    match palette {
        OverlayPalette::Redunar => 1,
        OverlayPalette::Glacier => 2,
        OverlayPalette::Ember => 3,
        OverlayPalette::Mint => 4,
        OverlayPalette::Mono => 5,
        OverlayPalette::Amethyst => 6,
        OverlayPalette::Solar => 7,
        OverlayPalette::Rose => 8,
    }
}

/// The palette of a number.
pub open spec fn palette_of(value: u8) -> Option<OverlayPalette> {
    if value == 1 {
        Some(OverlayPalette::Redunar)
    } else if value == 2 {
        Some(OverlayPalette::Glacier)
    } else if value == 3 {
        Some(OverlayPalette::Ember)
    } else if value == 4 {
        Some(OverlayPalette::Mint)
    } else if value == 5 {
        Some(OverlayPalette::Mono)
    } else if value == 6 {
        Some(OverlayPalette::Amethyst)
    } else if value == 7 {
        Some(OverlayPalette::Solar)
    } else if value == 8 {
        Some(OverlayPalette::Rose)
    } else {
        None
    }
}

fn decode_overlay_palette(value: u8) -> (result: Option<OverlayPalette>)
    ensures
        result == palette_of(value),
{
    match value {
        1 => Some(OverlayPalette::Redunar),
        2 => Some(OverlayPalette::Glacier),
        3 => Some(OverlayPalette::Ember),
        4 => Some(OverlayPalette::Mint),
        5 => Some(OverlayPalette::Mono),
        6 => Some(OverlayPalette::Amethyst),
        7 => Some(OverlayPalette::Solar),
        8 => Some(OverlayPalette::Rose),
        _ => None,
    }
}

/// The number of a corner on the wire.
pub open spec fn corner_number(corner: OverlayCorner) -> u8 {
    match corner {
        OverlayCorner::TopLeft => 1,
        OverlayCorner::TopRight => 2,
        OverlayCorner::BottomLeft => 3,
        OverlayCorner::BottomRight => 4,
    }
}

fn overlay_corner_wire(corner: OverlayCorner) -> (result: u8)
    ensures
        result == corner_number(corner),
{
    match corner {
        OverlayCorner::TopLeft => 1,
        OverlayCorner::TopRight => 2,
        OverlayCorner::BottomLeft => 3,
        OverlayCorner::BottomRight => 4,
    }
}

/// The corner of a number.
pub open spec fn corner_of(value: u8) -> Option<OverlayCorner> {
    if value == 1 {
        Some(OverlayCorner::TopLeft)
    } else if value == 2 {
        Some(OverlayCorner::TopRight)
    } else if value == 3 {
        Some(OverlayCorner::BottomLeft)
    } else if value == 4 {
        Some(OverlayCorner::BottomRight)
    } else {
        None
    }
}

fn decode_overlay_corner(value: u8) -> (result: Option<OverlayCorner>)
    ensures
        result == corner_of(value),
{
    match value {
        1 => Some(OverlayCorner::TopLeft),
        2 => Some(OverlayCorner::TopRight),
        3 => Some(OverlayCorner::BottomLeft),
        4 => Some(OverlayCorner::BottomRight),
        _ => None,
    }
}

/// The frames per second on the wire.
pub open spec fn rate_number(frame_rate: ReplayFrameRate) -> u8 {
    match frame_rate {
        ReplayFrameRate::Fps30 => 30,
        ReplayFrameRate::Fps60 => 60,
        ReplayFrameRate::Fps120 => 120,
    }
}

fn frame_rate_wire(frame_rate: ReplayFrameRate) -> (result: u8)
    ensures
        result == rate_number(frame_rate),
{
    match frame_rate {
        ReplayFrameRate::Fps30 => 30,
        ReplayFrameRate::Fps60 => 60,
        ReplayFrameRate::Fps120 => 120,
    }
}

/// The rate of a number.
pub open spec fn rate_of(value: u8) -> Option<ReplayFrameRate> {
    if value == 30 {
        Some(ReplayFrameRate::Fps30)
    } else if value == 60 {
        Some(ReplayFrameRate::Fps60)
    } else if value == 120 {
        Some(ReplayFrameRate::Fps120)
    } else {
        None
    }
}

fn decode_frame_rate(value: u8) -> (result: Option<ReplayFrameRate>)
    ensures
        result == rate_of(value),
{
    match value {
        30 => Some(ReplayFrameRate::Fps30),
        60 => Some(ReplayFrameRate::Fps60),
        120 => Some(ReplayFrameRate::Fps120),
        _ => None,
    }
}

/// A switch on the wire.
pub open spec fn switch_number(on: bool) -> u8 {
    if on {
        1
    } else {
        0
    }
}

fn switch_wire(on: bool) -> (result: u8)
    ensures
        result == switch_number(on),
{
    if on {
        1
    } else {
        0
    }
}

/// What every message starts with.
pub open spec fn wire_header() -> Seq<u8> {
    STEAM_WIRE_MAGIC.spec_bytes() + wire::le16(STEAM_WIRE_VERSION)
}

proof fn lemma_wire_header()
    ensures
        STEAM_WIRE_MAGIC.spec_bytes().len() == 8,
        wire_header().len() == 10,
        wire_header().take(8) == STEAM_WIRE_MAGIC.spec_bytes(),
        wire::from_le16(wire_header().skip(8)) == STEAM_WIRE_VERSION,
{
    reveal_strlit("RDSTML01");
    assert(STEAM_WIRE_MAGIC.is_ascii());
    assert(STEAM_WIRE_MAGIC.spec_bytes().len() == 8);
    assert(wire_header().take(8) =~= STEAM_WIRE_MAGIC.spec_bytes());
    assert(wire_header().subrange(8, 10) =~= wire::le16(STEAM_WIRE_VERSION));
    wire::lemma_le16_at(wire_header(), 8, STEAM_WIRE_VERSION);
}

/// Whether a message starts as it has to.
pub open spec fn has_wire_header(bytes: Seq<u8>) -> bool {
    &&& bytes.len() >= 10
    &&& bytes.take(8) == STEAM_WIRE_MAGIC.spec_bytes()
    &&& wire::from_le16(bytes.skip(8)) == STEAM_WIRE_VERSION
}

fn starts_with_header(bytes: &[u8]) -> (result: bool)
    ensures
        result == has_wire_header(bytes@),
{
    if bytes.len() < 10 {
        return false;
    }
    let magic = slice_subrange(bytes, 0, 8);
    assert(magic@ =~= bytes@.take(8));
    text::same_bytes(magic, STEAM_WIRE_MAGIC.as_bytes()) && wire::get_le_u16(bytes, 8)
        == STEAM_WIRE_VERSION
}

proof fn lemma_header_first(rest: Seq<u8>)
    ensures
        has_wire_header(wire_header() + rest),
        (wire_header() + rest).skip(10) == rest,
{
    lemma_wire_header();
    let bytes = wire_header() + rest;
    assert(bytes.take(8) =~= wire_header().take(8));
    assert(bytes.subrange(8, 10) =~= wire::le16(STEAM_WIRE_VERSION));
    wire::lemma_le16_at(bytes, 8, STEAM_WIRE_VERSION);
    assert(bytes.skip(10) =~= rest);
}

fn put_header(bytes: &mut Vec<u8>)
    ensures
        final(bytes)@ == old(bytes)@ + wire_header(),
{
    bytes.extend_from_slice(STEAM_WIRE_MAGIC.as_bytes());
    wire::put_le_u16(bytes, STEAM_WIRE_VERSION);
    assert(bytes@ =~= old(bytes)@ + wire_header());
}

/// A request for the activation of an application, as a process sends it.
pub open spec fn request_bytes(app_id: u32, process_id: u32) -> Seq<u8> {
    wire_header() + (wire::le32(app_id) + wire::le32(process_id))
}

pub fn encode_request(app_id: SteamAppId, process_id: u32) -> (result: Vec<u8>)
    ensures
        result@ == request_bytes(app_id@, process_id),
        result@.len() == REQUEST_BYTES,
{
    let mut bytes: Vec<u8> = Vec::new();
    put_header(&mut bytes);
    wire::put_le_u32(&mut bytes, app_id.get());
    wire::put_le_u32(&mut bytes, process_id);
    assert(bytes@ =~= request_bytes(app_id@, process_id));
    proof {
        lemma_wire_header();
    }
    bytes
}

/// What a request asks for.
pub open spec fn decoded_request(bytes: Seq<u8>) -> Result<(nat, nat), &'static str> {
    if bytes.len() != REQUEST_BYTES || !has_wire_header(bytes) {
        Err("unsupported Steam activation request")
    } else if wire::from_le32(bytes.skip(10)) == 0 {
        Err("Steam app ID cannot be zero")
    } else {
        Ok((wire::from_le32(bytes.skip(10)), wire::from_le32(bytes.skip(14))))
    }
}

pub fn decode_request(bytes: &[u8]) -> (result: Result<(SteamAppId, u32), SteamActivationError>)
    ensures
        match result {
            Ok((app_id, process_id)) => decoded_request(bytes@) == Ok::<(nat, nat), &'static str>(
                (app_id@ as nat, process_id as nat),
            ),
            Err(error) => decoded_request(bytes@) matches Err(fault) && error@ == fault@,
        },
{
    if bytes.len() != REQUEST_BYTES || !starts_with_header(bytes) {
        return Err(SteamActivationError::new("unsupported Steam activation request"));
    }
    match SteamAppId::new(wire::get_le_u32(bytes, 10)) {
        None => Err(SteamActivationError::new("Steam app ID cannot be zero")),
        Some(app_id) => Ok((app_id, wire::get_le_u32(bytes, 14))),
    }
}

/// A request is read back as it was written.
pub proof fn request_round_trip(app_id: u32, process_id: u32)
    requires
        app_id != 0,
    ensures
        decoded_request(request_bytes(app_id, process_id)) == Ok::<(nat, nat), &'static str>(
            (app_id as nat, process_id as nat),
        ),
{
    let bytes = request_bytes(app_id, process_id);
    lemma_wire_header();
    lemma_header_first(wire::le32(app_id) + wire::le32(process_id));
    assert(bytes.subrange(10, 14) =~= wire::le32(app_id));
    assert(bytes.subrange(14, 18) =~= wire::le32(process_id));
    wire::lemma_le32_at(bytes, 10, app_id);
    wire::lemma_le32_at(bytes, 14, process_id);
}

/// The answer when nothing is handed over.
pub open spec fn denied_bytes() -> Seq<u8> {
    wire_header() + seq![RESPONSE_DENIED]
}

pub fn encode_denied() -> (result: Vec<u8>)
    ensures
        result@ == denied_bytes(),
{
    let mut bytes: Vec<u8> = Vec::new();
    put_header(&mut bytes);
    bytes.push(RESPONSE_DENIED);
    assert(bytes@ =~= denied_bytes());
    bytes
}

/// A path with its length in front.
pub open spec fn path_bytes(path: Seq<u8>) -> Seq<u8> {
    wire::le16(path.len() as u16) + path
}

/// An optional path, where a length of zero stands for none.
pub open spec fn optional_path_bytes(path: Option<Seq<u8>>) -> Seq<u8> {
    match path {
        Some(path) => path_bytes(path),
        None => wire::le16(0),
    }
}

/// The fixed overlay fields.
pub open spec fn overlay_bytes(overlay: OverlayLaunchConfig) -> Seq<u8> {
    seq![
        switch_number(overlay.visible),
        preset_number(overlay.preset),
        layout_number(overlay.layout),
        palette_number(overlay.palette),
        switch_number(overlay.branding_visible),
        corner_number(overlay.corner),
        overlay.opacity_percent,
    ] + wire::le16(overlay.metric_bits)
}

/// The fixed replay fields.
pub open spec fn replay_bytes(replay: ReplayTransferLaunchConfig) -> Seq<u8> {
    seq![rate_number(replay.frame_rate), switch_number(replay.requested)]
}

/// The fields of a capture state in their fixed order. The two launch
/// wrappers, gamescope and gamemode, are not among them.
pub open spec fn state_bytes(state: CaptureState) -> Seq<u8> {
    path_bytes(state.layer_manifest_directory) + (optional_path_bytes(state.opengl_library) + (
    path_bytes(state.capture_socket) + (path_bytes(state.capture_reply_socket) + (state.session + (
    overlay_bytes(state.overlay) + (optional_path_bytes(state.overlay_telemetry_path)
        + replay_bytes(state.replay)))))))
}

/// The answer that hands a capture state over.
pub open spec fn granted_bytes(state: CaptureState) -> Seq<u8> {
    wire_header() + (seq![RESPONSE_GRANTED] + state_bytes(state))
}

fn put_path(bytes: &mut Vec<u8>, path: &[u8])
    requires
        path@.len() <= MAX_PATH_BYTES,
    ensures
        final(bytes)@ == old(bytes)@ + path_bytes(path@),
{
    wire::put_le_u16(bytes, path.len() as u16);
    bytes.extend_from_slice(path);
    assert(bytes@ =~= old(bytes)@ + path_bytes(path@));
}

fn put_optional_path(bytes: &mut Vec<u8>, path: &Option<Vec<u8>>)
    requires
        optional_wire_path(optional_bytes(*path)),
    ensures
        final(bytes)@ == old(bytes)@ + optional_path_bytes(optional_bytes(*path)),
{
    match path {
        Some(path) => put_path(bytes, path.as_slice()),
        None => wire::put_le_u16(bytes, 0),
    }
}

fn put_overlay(bytes: &mut Vec<u8>, overlay: OverlayLaunchConfig)
    ensures
        final(bytes)@ == old(bytes)@ + overlay_bytes(overlay),
{
    bytes.push(switch_wire(overlay.visible));
    bytes.push(overlay_preset_wire(overlay.preset));
    bytes.push(overlay_layout_wire(overlay.layout));
    bytes.push(overlay_palette_wire(overlay.palette));
    bytes.push(switch_wire(overlay.branding_visible));
    bytes.push(overlay_corner_wire(overlay.corner));
    bytes.push(overlay.opacity_percent);
    wire::put_le_u16(bytes, overlay.metric_bits);
    assert(bytes@ =~= old(bytes)@ + overlay_bytes(overlay));
}

fn put_replay(bytes: &mut Vec<u8>, replay: ReplayTransferLaunchConfig)
    ensures
        final(bytes)@ == old(bytes)@ + replay_bytes(replay),
{
    bytes.push(frame_rate_wire(replay.frame_rate()));
    bytes.push(switch_wire(replay.is_requested()));
    assert(bytes@ =~= old(bytes)@ + replay_bytes(replay));
}

/// Eight fields behind a start, grouped from either side.
proof fn lemma_fields(
    start: Seq<u8>,
    a: Seq<u8>,
    b: Seq<u8>,
    c: Seq<u8>,
    d: Seq<u8>,
    e: Seq<u8>,
    f: Seq<u8>,
    g: Seq<u8>,
    h: Seq<u8>,
)
    ensures
        start + a + b + c + d + e + f + g + h == start + (a + (b + (c + (d + (e + (f + (g + h))))))),
{
    assert(f + g + h =~= f + (g + h));
    assert(start + a + b + c + d + e + f + g + h =~= start + (a + (b + (c + (d + (e + (f + (g
        + h))))))));
}

proof fn lemma_state_length(state: CaptureState)
    requires
        state.valid(),
    ensures
        state_bytes(state).len() <= 5 * (MAX_PATH_BYTES + 2) + 16 + 9 + 2,
{
    assert(overlay_bytes(state.overlay).len() == 9);
}

pub fn encode_granted(environment: &SteamCaptureEnvironment) -> (result: Vec<u8>)
    ensures
        result@ == granted_bytes(environment@),
        result@.len() <= MAX_RESPONSE_BYTES,
{
    proof {
        use_type_invariant(environment);
    }
    let ghost state = environment@;
    let mut bytes: Vec<u8> = Vec::new();
    put_header(&mut bytes);
    bytes.push(RESPONSE_GRANTED);
    let ghost start = bytes@;
    assert(start =~= wire_header() + seq![RESPONSE_GRANTED]);
    put_path(&mut bytes, environment.layer_manifest_directory.as_slice());
    put_optional_path(&mut bytes, &environment.opengl_library);
    put_path(&mut bytes, environment.capture_socket.as_slice());
    put_path(&mut bytes, environment.capture_reply_socket.as_slice());
    bytes.extend_from_slice(environment.session_id.as_bytes());
    put_overlay(&mut bytes, environment.overlay);
    put_optional_path(&mut bytes, &environment.overlay_telemetry_path);
    put_replay(&mut bytes, environment.replay);
    proof {
        lemma_fields(
            start,
            path_bytes(state.layer_manifest_directory),
            optional_path_bytes(state.opengl_library),
            path_bytes(state.capture_socket),
            path_bytes(state.capture_reply_socket),
            state.session,
            overlay_bytes(state.overlay),
            optional_path_bytes(state.overlay_telemetry_path),
            replay_bytes(state.replay),
        );
        let fields = state_bytes(state);
        assert(bytes@ == start + fields);
        assert(start + fields =~= wire_header() + (seq![RESPONSE_GRANTED] + fields));
        lemma_wire_header();
        lemma_state_length(state);
    }
    bytes
}

/// A byte at the front, and what follows it.
pub open spec fn taken_byte(bytes: Seq<u8>) -> Result<(u8, Seq<u8>), Seq<char>> {
    if bytes.len() == 0 {
        Err("truncated Steam activation response"@)
    } else {
        Ok((bytes[0], bytes.skip(1)))
    }
}

fn take_u8(bytes: &[u8]) -> (result: Result<(u8, &[u8]), SteamActivationError>)
    ensures
        match result {
            Ok((value, rest)) => taken_byte(bytes@) == Ok::<(u8, Seq<u8>), Seq<char>>((value, rest@)),
            Err(error) => taken_byte(bytes@) == Err::<(u8, Seq<u8>), Seq<char>>(error@),
        },
{
    if bytes.len() == 0 {
        return Err(SteamActivationError::new("truncated Steam activation response"));
    }
    let rest = slice_subrange(bytes, 1, bytes.len());
    assert(rest@ =~= bytes@.skip(1));
    Ok((bytes[0], rest))
}

/// A switch at the front, and what follows it.
pub open spec fn taken_switch(bytes: Seq<u8>) -> Result<(bool, Seq<u8>), Seq<char>> {
    match taken_byte(bytes) {
        Err(fault) => Err(fault),
        Ok((value, rest)) => if value == 0 {
            Ok((false, rest))
        } else if value == 1 {
            Ok((true, rest))
        } else {
            Err("invalid Steam activation boolean"@)
        },
    }
}

fn take_bool(bytes: &[u8]) -> (result: Result<(bool, &[u8]), SteamActivationError>)
    ensures
        match result {
            Ok((value, rest)) => taken_switch(bytes@) == Ok::<(bool, Seq<u8>), Seq<char>>(
                (value, rest@),
            ),
            Err(error) => taken_switch(bytes@) == Err::<(bool, Seq<u8>), Seq<char>>(error@),
        },
{
    match take_u8(bytes) {
        Err(error) => Err(error),
        Ok((0, rest)) => Ok((false, rest)),
        Ok((1, rest)) => Ok((true, rest)),
        Ok(_) => Err(SteamActivationError::new("invalid Steam activation boolean")),
    }
}

/// A two-byte integer at the front, and what follows it.
pub open spec fn taken_short(bytes: Seq<u8>) -> Result<(u16, Seq<u8>), Seq<char>> {
    if bytes.len() < 2 {
        Err("truncated Steam activation integer"@)
    } else {
        Ok((wire::from_le16(bytes) as u16, bytes.skip(2)))
    }
}

fn take_u16(bytes: &[u8]) -> (result: Result<(u16, &[u8]), SteamActivationError>)
    ensures
        match result {
            Ok((value, rest)) => taken_short(bytes@) == Ok::<(u16, Seq<u8>), Seq<char>>(
                (value, rest@),
            ),
            Err(error) => taken_short(bytes@) == Err::<(u16, Seq<u8>), Seq<char>>(error@),
        },
{
    if bytes.len() < 2 {
        return Err(SteamActivationError::new("truncated Steam activation integer"));
    }
    let rest = slice_subrange(bytes, 2, bytes.len());
    assert(rest@ =~= bytes@.skip(2));
    assert(bytes@.skip(0) =~= bytes@);
    Ok((wire::get_le_u16(bytes, 0), rest))
}

/// A path at the front, and what follows it. None is taken only where it may
/// be left out.
pub open spec fn taken_path(bytes: Seq<u8>, optional: bool) -> Result<
    (Option<Seq<u8>>, Seq<u8>),
    Seq<char>,
> {
    match taken_short(bytes) {
        Err(fault) => Err(fault),
        Ok((length, rest)) => if length == 0 && optional {
            Ok((None, rest))
        } else if length == 0 || length > MAX_PATH_BYTES {
            Err("invalid Steam activation path length"@)
        } else if rest.len() < length {
            Err("truncated Steam activation path"@)
        } else {
            match path_fault("Steam activation path"@, rest.take(length as int)) {
                Some(fault) => Err(fault),
                None => Ok((Some(rest.take(length as int)), rest.skip(length as int))),
            }
        },
    }
}

fn take_path(bytes: &[u8], optional: bool) -> (result: Result<
    (Option<Vec<u8>>, &[u8]),
    SteamActivationError,
>)
    ensures
        match result {
            Ok((path, rest)) => taken_path(bytes@, optional) == Ok::<
                (Option<Seq<u8>>, Seq<u8>),
                Seq<char>,
            >((optional_bytes(path), rest@)) && optional_wire_path(optional_bytes(path)) && (
            optional || path is Some),
            Err(error) => taken_path(bytes@, optional) == Err::<
                (Option<Seq<u8>>, Seq<u8>),
                Seq<char>,
            >(error@),
        },
{
    let (length, rest) = match take_u16(bytes) {
        Ok(taken) => taken,
        Err(error) => {
            return Err(error);
        },
    };
    if length == 0 && optional {
        return Ok((None, rest));
    }
    let size: usize = length as usize;
    if size == 0 || size > MAX_PATH_BYTES {
        return Err(SteamActivationError::new("invalid Steam activation path length"));
    }
    if rest.len() < size {
        return Err(SteamActivationError::new("truncated Steam activation path"));
    }
    let path = slice_subrange(rest, 0, size);
    assert(path@ =~= rest@.take(size as int));
    let after = slice_subrange(rest, size, rest.len());
    assert(after@ =~= rest@.skip(size as int));
    if let Err(error) = validate_wire_path("Steam activation path", path) {
        return Err(error);
    }
    Ok((Some(vstd::slice::slice_to_vec(path)), after))
}

fn take_required_path(bytes: &[u8]) -> (result: Result<(Vec<u8>, &[u8]), SteamActivationError>)
    ensures
        match result {
            Ok((path, rest)) => taken_path(bytes@, false) == Ok::<
                (Option<Seq<u8>>, Seq<u8>),
                Seq<char>,
            >((Some(path@), rest@)) && wire_path(path@),
            Err(error) => taken_path(bytes@, false) == Err::<
                (Option<Seq<u8>>, Seq<u8>),
                Seq<char>,
            >(error@),
        },
{
    match take_path(bytes, false) {
        Err(error) => Err(error),
        Ok((Some(path), rest)) => Ok((path, rest)),
        Ok((None, rest)) => Ok((Vec::new(), rest)),
    }
}

/// The four leading paths.
#[verifier::ext_equal]
pub ghost struct LeadingPaths {
    pub layer_manifest_directory: Seq<u8>,
    pub opengl_library: Option<Seq<u8>>,
    pub capture_socket: Seq<u8>,
    pub capture_reply_socket: Seq<u8>,
}

/// The four leading paths, and what follows them.
pub open spec fn taken_paths(bytes: Seq<u8>) -> Result<(LeadingPaths, Seq<u8>), Seq<char>> {
    match taken_path(bytes, false) {
        Err(fault) => Err(fault),
        Ok((manifest, bytes)) => match taken_path(bytes, true) {
            Err(fault) => Err(fault),
            Ok((library, bytes)) => match taken_path(bytes, false) {
                Err(fault) => Err(fault),
                Ok((socket, bytes)) => match taken_path(bytes, false) {
                    Err(fault) => Err(fault),
                    Ok((reply, bytes)) => Ok(
                        (
                            LeadingPaths {
                                layer_manifest_directory: manifest->0,
                                opengl_library: library,
                                capture_socket: socket->0,
                                capture_reply_socket: reply->0,
                            },
                            bytes,
                        ),
                    ),
                },
            },
        },
    }
}

/// The session at the front, and what follows it.
pub open spec fn taken_session(bytes: Seq<u8>) -> Result<(Seq<u8>, Seq<u8>), Seq<char>> {
    if bytes.len() < 16 {
        Err("truncated Steam activation response"@)
    } else if !capture_session::is_session(bytes.take(16)) {
        Err("invalid capture session ID"@)
    } else {
        Ok((bytes.take(16), bytes.skip(16)))
    }
}

fn take_session(bytes: &[u8]) -> (result: Result<(CaptureSessionId, &[u8]), SteamActivationError>)
    ensures
        match result {
            Ok((session, rest)) => taken_session(bytes@) == Ok::<(Seq<u8>, Seq<u8>), Seq<char>>(
                (session@, rest@),
            ),
            Err(error) => taken_session(bytes@) == Err::<(Seq<u8>, Seq<u8>), Seq<char>>(error@),
        },
{
    if bytes.len() < 16 {
        return Err(SteamActivationError::new("truncated Steam activation response"));
    }
    let mut array: [u8; 16] = [0; 16];
    let mut index: usize = 0;
    while index < 16
        invariant
            index <= 16 <= bytes@.len(),
            forall|i: int| 0 <= i < index ==> #[trigger] array@[i] == bytes@[i],
        decreases 16 - index,
    {
        array[index] = bytes[index];
        index = index + 1;
    }
    assert(array@ =~= bytes@.take(16));
    let rest = slice_subrange(bytes, 16, bytes.len());
    assert(rest@ =~= bytes@.skip(16));
    match CaptureSessionId::new(array) {
        None => Err(SteamActivationError::new("invalid capture session ID")),
        Some(session) => Ok((session, rest)),
    }
}

/// The fixed overlay fields, and what follows them.
pub open spec fn taken_overlay(bytes: Seq<u8>, rules: OverlayRules) -> Result<
    (OverlayLaunchConfig, Seq<u8>),
    Seq<char>,
> {
    match taken_switch(bytes) {
        Err(fault) => Err(fault),
        Ok((visible, bytes)) => match taken_byte(bytes) {
            Err(fault) => Err(fault),
            Ok((preset, bytes)) => match preset_of(preset) {
                None => Err("invalid overlay preset"@),
                Some(preset) => match taken_byte(bytes) {
                    Err(fault) => Err(fault),
                    Ok((layout, bytes)) => match layout_of(layout) {
                        None => Err("invalid overlay layout"@),
                        Some(layout) => match taken_byte(bytes) {
                            Err(fault) => Err(fault),
                            Ok((palette, bytes)) => match palette_of(palette) {
                                None => Err("invalid overlay palette"@),
                                Some(palette) => taken_overlay_end(
                                    bytes,
                                    rules,
                                    visible,
                                    preset,
                                    layout,
                                    palette,
                                ),
                            },
                        },
                    },
                },
            },
        },
    }
}

/// The overlay fields behind the palette, and what follows them.
pub open spec fn taken_overlay_end(
    bytes: Seq<u8>,
    rules: OverlayRules,
    visible: bool,
    preset: OverlayPreset,
    layout: OverlayLayout,
    palette: OverlayPalette,
) -> Result<(OverlayLaunchConfig, Seq<u8>), Seq<char>> {
    match taken_switch(bytes) {
        Err(fault) => Err(fault),
        Ok((branding_visible, bytes)) => match taken_byte(bytes) {
            Err(fault) => Err(fault),
            Ok((corner, bytes)) => match corner_of(corner) {
                None => Err("invalid overlay corner"@),
                Some(corner) => match taken_byte(bytes) {
                    Err(fault) => Err(fault),
                    Ok((opacity_percent, bytes)) => if !rules.allows_opacity(opacity_percent) {
                        Err("invalid overlay opacity"@)
                    } else {
                        match taken_short(bytes) {
                            Err(fault) => Err(fault),
                            Ok((metric_bits, bytes)) => if !rules.allows_metrics(metric_bits) {
                                Err("invalid overlay metrics"@)
                            } else {
                                Ok(
                                    (
                                        OverlayLaunchConfig {
                                            visible,
                                            preset,
                                            layout,
                                            palette,
                                            branding_visible,
                                            corner,
                                            opacity_percent,
                                            metric_bits,
                                        },
                                        bytes,
                                    ),
                                )
                            },
                        }
                    },
                },
            },
        },
    }
}

fn take_overlay_end<'a>(
    bytes: &'a [u8],
    rules: OverlayRules,
    visible: bool,
    preset: OverlayPreset,
    layout: OverlayLayout,
    palette: OverlayPalette,
) -> (result: Result<(OverlayLaunchConfig, &'a [u8]), SteamActivationError>)
    ensures
        match result {
            Ok((config, rest)) => taken_overlay_end(bytes@, rules, visible, preset, layout, palette)
                == Ok::<(OverlayLaunchConfig, Seq<u8>), Seq<char>>((config, rest@)),
            Err(error) => taken_overlay_end(bytes@, rules, visible, preset, layout, palette)
                == Err::<(OverlayLaunchConfig, Seq<u8>), Seq<char>>(error@),
        },
{
    let (branding_visible, bytes) = match take_bool(bytes) {
        Ok(taken) => taken,
        Err(error) => {
            return Err(error);
        },
    };
    let (corner, bytes) = match take_u8(bytes) {
        Ok(taken) => taken,
        Err(error) => {
            return Err(error);
        },
    };
    let corner = match decode_overlay_corner(corner) {
        Some(corner) => corner,
        None => {
            return Err(SteamActivationError::new("invalid overlay corner"));
        },
    };
    let (opacity_percent, bytes) = match take_u8(bytes) {
        Ok(taken) => taken,
        Err(error) => {
            return Err(error);
        },
    };
    if opacity_percent < rules.minimum_opacity_percent || opacity_percent
        > rules.maximum_opacity_percent {
        return Err(SteamActivationError::new("invalid overlay opacity"));
    }
    let (metric_bits, bytes) = match take_u16(bytes) {
        Ok(taken) => taken,
        Err(error) => {
            return Err(error);
        },
    };
    if metric_bits & !rules.known_metrics != 0 {
        return Err(SteamActivationError::new("invalid overlay metrics"));
    }
    Ok(
        (
            OverlayLaunchConfig {
                visible,
                preset,
                layout,
                palette,
                branding_visible,
                corner,
                opacity_percent,
                metric_bits,
            },
            bytes,
        ),
    )
}

fn take_overlay<'a>(bytes: &'a [u8], rules: OverlayRules) -> (result: Result<
    (OverlayLaunchConfig, &'a [u8]),
    SteamActivationError,
>)
    ensures
        match result {
            Ok((config, rest)) => taken_overlay(bytes@, rules) == Ok::<
                (OverlayLaunchConfig, Seq<u8>),
                Seq<char>,
            >((config, rest@)),
            Err(error) => taken_overlay(bytes@, rules) == Err::<
                (OverlayLaunchConfig, Seq<u8>),
                Seq<char>,
            >(error@),
        },
{
    let (visible, bytes) = match take_bool(bytes) {
        Ok(taken) => taken,
        Err(error) => {
            return Err(error);
        },
    };
    let (preset, bytes) = match take_u8(bytes) {
        Ok(taken) => taken,
        Err(error) => {
            return Err(error);
        },
    };
    let preset = match decode_overlay_preset(preset) {
        Some(preset) => preset,
        None => {
            return Err(SteamActivationError::new("invalid overlay preset"));
        },
    };
    let (layout, bytes) = match take_u8(bytes) {
        Ok(taken) => taken,
        Err(error) => {
            return Err(error);
        },
    };
    let layout = match decode_overlay_layout(layout) {
        Some(layout) => layout,
        None => {
            return Err(SteamActivationError::new("invalid overlay layout"));
        },
    };
    let (palette, bytes) = match take_u8(bytes) {
        Ok(taken) => taken,
        Err(error) => {
            return Err(error);
        },
    };
    let palette = match decode_overlay_palette(palette) {
        Some(palette) => palette,
        None => {
            return Err(SteamActivationError::new("invalid overlay palette"));
        },
    };
    take_overlay_end(bytes, rules, visible, preset, layout, palette)
}

/// The fixed replay fields, which end a message.
pub open spec fn taken_replay(bytes: Seq<u8>) -> Result<ReplayTransferLaunchConfig, Seq<char>> {
    match taken_byte(bytes) {
        Err(fault) => Err(fault),
        Ok((rate, bytes)) => match rate_of(rate) {
            None => Err("invalid replay frame rate"@),
            Some(frame_rate) => match taken_switch(bytes) {
                Err(fault) => Err(fault),
                Ok((requested, bytes)) => if bytes.len() != 0 {
                    Err("Steam activation response has trailing data"@)
                } else {
                    Ok(ReplayTransferLaunchConfig { requested, frame_rate })
                },
            },
        },
    }
}

fn take_replay(bytes: &[u8]) -> (result: Result<ReplayTransferLaunchConfig, SteamActivationError>)
    ensures
        match result {
            Ok(replay) => taken_replay(bytes@) == Ok::<ReplayTransferLaunchConfig, Seq<char>>(
                replay,
            ),
            Err(error) => taken_replay(bytes@) == Err::<ReplayTransferLaunchConfig, Seq<char>>(
                error@,
            ),
        },
{
    let (rate, bytes) = match take_u8(bytes) {
        Ok(taken) => taken,
        Err(error) => {
            return Err(error);
        },
    };
    let frame_rate = match decode_frame_rate(rate) {
        Some(frame_rate) => frame_rate,
        None => {
            return Err(SteamActivationError::new("invalid replay frame rate"));
        },
    };
    let (requested, bytes) = match take_bool(bytes) {
        Ok(taken) => taken,
        Err(error) => {
            return Err(error);
        },
    };
    if bytes.len() != 0 {
        return Err(SteamActivationError::new("Steam activation response has trailing data"));
    }
    Ok(ReplayTransferLaunchConfig::new(requested, frame_rate))
}

/// The capture state that the fields of an answer give.
pub open spec fn taken_state(bytes: Seq<u8>, rules: OverlayRules) -> Result<
    CaptureState,
    Seq<char>,
> {
    match taken_paths(bytes) {
        Err(fault) => Err(fault),
        Ok((leading, bytes)) => match taken_session(bytes) {
            Err(fault) => Err(fault),
            Ok((session, bytes)) => match taken_overlay(bytes, rules) {
                Err(fault) => Err(fault),
                Ok((overlay, bytes)) => match taken_path(bytes, true) {
                    Err(fault) => Err(fault),
                    Ok((overlay_telemetry_path, bytes)) => match taken_replay(bytes) {
                        Err(fault) => Err(fault),
                        Ok(replay) => Ok(
                            CaptureState {
                                layer_manifest_directory: leading.layer_manifest_directory,
                                opengl_library: leading.opengl_library,
                                capture_socket: leading.capture_socket,
                                capture_reply_socket: leading.capture_reply_socket,
                                session,
                                overlay,
                                gamescope: false,
                                gamemode: false,
                                overlay_telemetry_path,
                                replay,
                            },
                        ),
                    },
                },
            },
        },
    }
}

/// What an answer hands over.
pub open spec fn decoded_response(bytes: Seq<u8>, rules: OverlayRules) -> Result<
    Option<CaptureState>,
    Seq<char>,
> {
    if bytes.len() < 11 || !has_wire_header(bytes) {
        Err("unsupported Steam activation response"@)
    } else if bytes[10] == RESPONSE_DENIED && bytes.len() == 11 {
        Ok(None)
    } else if bytes[10] != RESPONSE_GRANTED {
        Err("invalid activation response status"@)
    } else {
        match taken_state(bytes.skip(11), rules) {
            Err(fault) => Err(fault),
            Ok(state) => Ok(Some(state)),
        }
    }
}

fn take_state(bytes: &[u8], rules: OverlayRules) -> (result: Result<
    SteamCaptureEnvironment,
    SteamActivationError,
>)
    ensures
        match result {
            Ok(environment) => taken_state(bytes@, rules) == Ok::<CaptureState, Seq<char>>(
                environment@,
            ),
            Err(error) => taken_state(bytes@, rules) == Err::<CaptureState, Seq<char>>(error@),
        },
{
    let (layer_manifest_directory, bytes) = match take_required_path(bytes) {
        Ok(taken) => taken,
        Err(error) => {
            return Err(error);
        },
    };
    let (opengl_library, bytes) = match take_path(bytes, true) {
        Ok(taken) => taken,
        Err(error) => {
            return Err(error);
        },
    };
    let (capture_socket, bytes) = match take_required_path(bytes) {
        Ok(taken) => taken,
        Err(error) => {
            return Err(error);
        },
    };
    let (capture_reply_socket, bytes) = match take_required_path(bytes) {
        Ok(taken) => taken,
        Err(error) => {
            return Err(error);
        },
    };
    let (session_id, bytes) = match take_session(bytes) {
        Ok(taken) => taken,
        Err(error) => {
            return Err(error);
        },
    };
    let (overlay, bytes) = match take_overlay(bytes, rules) {
        Ok(taken) => taken,
        Err(error) => {
            return Err(error);
        },
    };
    let (overlay_telemetry_path, bytes) = match take_path(bytes, true) {
        Ok(taken) => taken,
        Err(error) => {
            return Err(error);
        },
    };
    let replay = match take_replay(bytes) {
        Ok(replay) => replay,
        Err(error) => {
            return Err(error);
        },
    };
    Ok(
        SteamCaptureEnvironment {
            layer_manifest_directory,
            opengl_library,
            capture_socket,
            capture_reply_socket,
            session_id,
            overlay,
            gamescope: false,
            gamemode: false,
            overlay_telemetry_path,
            replay,
        },
    )
}

/// Reads an answer of the broker.
pub fn decode_response(bytes: &[u8], rules: OverlayRules) -> (result: Result<
    Option<SteamCaptureEnvironment>,
    SteamActivationError,
>)
    ensures
        match result {
            Ok(Some(environment)) => decoded_response(bytes@, rules) == Ok::<
                Option<CaptureState>,
                Seq<char>,
            >(Some(environment@)),
            Ok(None) => decoded_response(bytes@, rules) == Ok::<Option<CaptureState>, Seq<char>>(
                None,
            ),
            Err(error) => decoded_response(bytes@, rules) == Err::<Option<CaptureState>, Seq<char>>(
                error@,
            ),
        },
{
    if bytes.len() < 11 || !starts_with_header(bytes) {
        return Err(SteamActivationError::new("unsupported Steam activation response"));
    }
    if bytes[10] == RESPONSE_DENIED && bytes.len() == 11 {
        return Ok(None);
    }
    if bytes[10] != RESPONSE_GRANTED {
        return Err(SteamActivationError::new("invalid activation response status"));
    }
    let fields = slice_subrange(bytes, 11, bytes.len());
    assert(fields@ =~= bytes@.skip(11));
    match take_state(fields, rules) {
        Ok(environment) => Ok(Some(environment)),
        Err(error) => Err(error),
    }
}

proof fn lemma_path_taken(path: Seq<u8>, rest: Seq<u8>, optional: bool)
    requires
        wire_path(path),
    ensures
        taken_path(path_bytes(path) + rest, optional) == Ok::<(Option<Seq<u8>>, Seq<u8>), Seq<char>>(
            (Some(path), rest),
        ),
{
    assert(path_bytes(path) + rest =~= wire::le16(path.len() as u16) + (path + rest));
    lemma_short_taken(path.len() as u16, path + rest);
    assert((path + rest).take(path.len() as int) =~= path);
    assert((path + rest).skip(path.len() as int) =~= rest);
}

proof fn lemma_optional_path_taken(path: Option<Seq<u8>>, rest: Seq<u8>)
    requires
        optional_wire_path(path),
    ensures
        taken_path(optional_path_bytes(path) + rest, true) == Ok::<
            (Option<Seq<u8>>, Seq<u8>),
            Seq<char>,
        >((path, rest)),
{
    match path {
        Some(path) => {
            lemma_path_taken(path, rest, true);
        },
        None => {
            lemma_short_taken(0, rest);
        },
    }
}

proof fn lemma_byte_taken(value: u8, rest: Seq<u8>)
    ensures
        taken_byte(seq![value] + rest) == Ok::<(u8, Seq<u8>), Seq<char>>((value, rest)),
{
    assert((seq![value] + rest).skip(1) =~= rest);
}

proof fn lemma_switch_taken(on: bool, rest: Seq<u8>)
    ensures
        taken_switch(seq![switch_number(on)] + rest) == Ok::<(bool, Seq<u8>), Seq<char>>((on, rest)),
{
    lemma_byte_taken(switch_number(on), rest);
}

proof fn lemma_short_taken(value: u16, rest: Seq<u8>)
    ensures
        taken_short(wire::le16(value) + rest) == Ok::<(u16, Seq<u8>), Seq<char>>((value, rest)),
{
    let bytes = wire::le16(value) + rest;
    assert(bytes.subrange(0, 2) =~= wire::le16(value));
    wire::lemma_le16_at(bytes, 0, value);
    assert(bytes.skip(0) =~= bytes);
    assert(bytes.skip(2) =~= rest);
}

proof fn lemma_overlay_end_taken(overlay: OverlayLaunchConfig, rest: Seq<u8>, rules: OverlayRules)
    requires
        rules.allows_opacity(overlay.opacity_percent),
        rules.allows_metrics(overlay.metric_bits),
    ensures
        taken_overlay_end(
            seq![switch_number(overlay.branding_visible)] + (seq![corner_number(overlay.corner)] + (
            seq![overlay.opacity_percent] + (wire::le16(overlay.metric_bits) + rest))),
            rules,
            overlay.visible,
            overlay.preset,
            overlay.layout,
            overlay.palette,
        ) == Ok::<(OverlayLaunchConfig, Seq<u8>), Seq<char>>((overlay, rest)),
{
    let metrics = wire::le16(overlay.metric_bits) + rest;
    let opacity = seq![overlay.opacity_percent] + metrics;
    let corner = seq![corner_number(overlay.corner)] + opacity;
    lemma_switch_taken(overlay.branding_visible, corner);
    lemma_byte_taken(corner_number(overlay.corner), opacity);
    lemma_byte_taken(overlay.opacity_percent, metrics);
    lemma_short_taken(overlay.metric_bits, rest);
    lemma_overlay_numbers(overlay);
}

proof fn lemma_overlay_grouped(overlay: OverlayLaunchConfig, rest: Seq<u8>)
    ensures
        overlay_bytes(overlay) + rest == seq![switch_number(overlay.visible)] + (
        seq![preset_number(overlay.preset)] + (seq![layout_number(overlay.layout)] + (
        seq![palette_number(overlay.palette)] + (seq![switch_number(overlay.branding_visible)] + (
        seq![corner_number(overlay.corner)] + (seq![overlay.opacity_percent] + (wire::le16(
            overlay.metric_bits,
        ) + rest))))))),
{
    let metrics = wire::le16(overlay.metric_bits) + rest;
    let a = switch_number(overlay.visible);
    let b = preset_number(overlay.preset);
    let c = layout_number(overlay.layout);
    let d = palette_number(overlay.palette);
    let e = switch_number(overlay.branding_visible);
    let f = corner_number(overlay.corner);
    let g = overlay.opacity_percent;
    lemma_seven_grouped(a, b, c, d, e, f, g, metrics);
    assert(overlay_bytes(overlay) + rest =~= seq![a, b, c, d, e, f, g] + metrics);
}

proof fn lemma_seven_grouped(
    a: u8,
    b: u8,
    c: u8,
    d: u8,
    e: u8,
    f: u8,
    g: u8,
    rest: Seq<u8>,
)
    ensures
        seq![a, b, c, d, e, f, g] + rest == seq![a] + (seq![b] + (seq![c] + (seq![d] + (seq![e] + (
        seq![f] + (seq![g] + rest)))))),
{
    assert(seq![f, g] + rest =~= seq![f] + (seq![g] + rest));
    assert(seq![d, e, f, g] + rest =~= seq![d] + (seq![e] + (seq![f, g] + rest)));
    assert(seq![b, c, d, e, f, g] + rest =~= seq![b] + (seq![c] + (seq![d, e, f, g] + rest)));
    assert(seq![a, b, c, d, e, f, g] + rest =~= seq![a] + (seq![b, c, d, e, f, g] + rest));
}

proof fn lemma_overlay_taken(overlay: OverlayLaunchConfig, rest: Seq<u8>, rules: OverlayRules)
    requires
        rules.allows_opacity(overlay.opacity_percent),
        rules.allows_metrics(overlay.metric_bits),
    ensures
        taken_overlay(overlay_bytes(overlay) + rest, rules) == Ok::<
            (OverlayLaunchConfig, Seq<u8>),
            Seq<char>,
        >((overlay, rest)),
{
    let metrics = wire::le16(overlay.metric_bits) + rest;
    let opacity = seq![overlay.opacity_percent] + metrics;
    let corner = seq![corner_number(overlay.corner)] + opacity;
    let branding = seq![switch_number(overlay.branding_visible)] + corner;
    let palette = seq![palette_number(overlay.palette)] + branding;
    let layout = seq![layout_number(overlay.layout)] + palette;
    let preset = seq![preset_number(overlay.preset)] + layout;
    lemma_overlay_grouped(overlay, rest);
    lemma_switch_taken(overlay.visible, preset);
    lemma_byte_taken(preset_number(overlay.preset), layout);
    lemma_byte_taken(layout_number(overlay.layout), palette);
    lemma_byte_taken(palette_number(overlay.palette), branding);
    lemma_overlay_numbers(overlay);
    lemma_overlay_end_taken(overlay, rest, rules);
}

proof fn lemma_overlay_numbers(overlay: OverlayLaunchConfig)
    ensures
        preset_of(preset_number(overlay.preset)) == Some(overlay.preset),
        layout_of(layout_number(overlay.layout)) == Some(overlay.layout),
        palette_of(palette_number(overlay.palette)) == Some(overlay.palette),
        corner_of(corner_number(overlay.corner)) == Some(overlay.corner),
{
}

proof fn lemma_replay_taken(replay: ReplayTransferLaunchConfig)
    ensures
        taken_replay(replay_bytes(replay)) == Ok::<ReplayTransferLaunchConfig, Seq<char>>(replay),
{
}

proof fn lemma_session_taken(session: Seq<u8>, rest: Seq<u8>)
    requires
        capture_session::is_session(session),
    ensures
        taken_session(session + rest) == Ok::<(Seq<u8>, Seq<u8>), Seq<char>>((session, rest)),
{
    assert((session + rest).take(16) =~= session);
    assert((session + rest).skip(16) =~= rest);
}

/// A capture state that is handed over arrives as it was, except that the two
/// launch wrappers are off.
pub proof fn granted_round_trip(state: CaptureState, rules: OverlayRules)
    requires
        state.valid(),
        rules.allows_opacity(state.overlay.opacity_percent),
        rules.allows_metrics(state.overlay.metric_bits),
    ensures
        decoded_response(granted_bytes(state), rules) == Ok::<Option<CaptureState>, Seq<char>>(
            Some(CaptureState { gamescope: false, gamemode: false, ..state }),
        ),
{
    let replay = replay_bytes(state.replay);
    let telemetry = optional_path_bytes(state.overlay_telemetry_path) + replay;
    let overlay = overlay_bytes(state.overlay) + telemetry;
    let session = state.session + overlay;
    let reply = path_bytes(state.capture_reply_socket) + session;
    let socket = path_bytes(state.capture_socket) + reply;
    let library = optional_path_bytes(state.opengl_library) + socket;
    let fields = path_bytes(state.layer_manifest_directory) + library;
    lemma_path_taken(state.layer_manifest_directory, library, false);
    lemma_optional_path_taken(state.opengl_library, socket);
    lemma_path_taken(state.capture_socket, reply, false);
    lemma_path_taken(state.capture_reply_socket, session, false);
    lemma_session_taken(state.session, overlay);
    lemma_overlay_taken(state.overlay, telemetry, rules);
    lemma_optional_path_taken(state.overlay_telemetry_path, replay);
    lemma_replay_taken(state.replay);
    assert(fields == state_bytes(state));
    let rest = seq![RESPONSE_GRANTED] + fields;
    lemma_wire_header();
    lemma_header_first(rest);
    let bytes = granted_bytes(state);
    assert(bytes[10] == bytes.skip(10)[0]);
    assert(bytes.skip(11) =~= fields);
}

/// A refused request hands nothing over.
pub proof fn denied_round_trip(rules: OverlayRules)
    ensures
        decoded_response(denied_bytes(), rules) == Ok::<Option<CaptureState>, Seq<char>>(None),
{
    lemma_wire_header();
    lemma_header_first(seq![RESPONSE_DENIED]);
    assert(denied_bytes()[10] == denied_bytes().skip(10)[0]);
}

/// A request is eighteen bytes: the mark of the protocol, its version, the app
/// and the process that asks.
pub proof fn requests_have_their_layout(app_id: u32, process_id: u32)
    ensures
        request_bytes(app_id, process_id) == "RDSTML01".spec_bytes() + seq![5u8, 0u8] + wire::le32(
            app_id,
        ) + wire::le32(process_id),
        REQUEST_BYTES == 18,
        MAX_PATH_BYTES == 4 * 1_024,
{
    assert(wire::le16(5) =~= seq![5u8, 0u8]);
    assert(request_bytes(app_id, process_id) =~= "RDSTML01".spec_bytes() + seq![5u8, 0u8]
        + wire::le32(app_id) + wire::le32(process_id));
}

/// A path that goes over the socket is absolute, has no zero byte and 4096 bytes
/// at most.
pub proof fn paths_on_the_wire_are_bounded(path: Seq<u8>)
    ensures
        wire_path(path) <==> 0 < path.len() <= 4_096 && path[0] == '/' as u8 && !path.contains(0u8),
{
    if path.contains(0u8) {
        let i = choose|i: int| 0 <= i < path.len() && path[i] == 0u8;
        assert(paths::has_nul(path));
    }
}

/// An opacity has to lie within its bounds, and only known metrics may be asked
/// for.
pub proof fn choices_stay_within_the_rules(rules: OverlayRules, percent: u8, bits: u16)
    ensures
        rules.allows_opacity(percent) <==> percent >= rules.minimum_opacity_percent && percent
            <= rules.maximum_opacity_percent,
        rules.allows_metrics(bits) <==> bits | rules.known_metrics == rules.known_metrics,
{
    let known = rules.known_metrics;
    assert((bits & !known == 0) == (bits | known == known)) by (bit_vector);
}

} // verus!
