//! Child-only capture environments for launched games.
use crate::capture_session::CaptureSessionId;
use crate::environment;
use crate::environment::Environment;
use crate::overlay;
use crate::overlay::{OverlayCorner, OverlayDefaults, OverlayLayout, OverlayPalette, OverlayPreset};
use crate::paths;
use crate::replay_settings;
use crate::replay_settings::ReplayFrameRate;
use crate::text;
use vstd::prelude::*;
use vstd::string::*;

verus! {

broadcast use vstd::string::group_string_axioms;

pub const VULKAN_CAPTURE_LAYER_NAME: &'static str = "VK_LAYER_REDUNAR_capture";

pub const VULKAN_CAPTURE_MANIFEST_FILE: &'static str = "VkLayer_REDUNAR_capture.json";

pub const REDUNAR_OVERLAY_VISIBLE_ENV: &'static str = "REDUNAR_OVERLAY_VISIBLE";

pub const REDUNAR_OVERLAY_TELEMETRY_ENV: &'static str = "REDUNAR_OVERLAY_TELEMETRY";

pub const REDUNAR_OVERLAY_PRESET_ENV: &'static str = "REDUNAR_OVERLAY_PRESET";

pub const REDUNAR_OVERLAY_LAYOUT_ENV: &'static str = "REDUNAR_OVERLAY_LAYOUT";

pub const REDUNAR_OVERLAY_PALETTE_ENV: &'static str = "REDUNAR_OVERLAY_PALETTE";

pub const REDUNAR_OVERLAY_BRANDING_ENV: &'static str = "REDUNAR_OVERLAY_BRANDING";

pub const REDUNAR_OVERLAY_CORNER_ENV: &'static str = "REDUNAR_OVERLAY_CORNER";

pub const REDUNAR_OVERLAY_OPACITY_ENV: &'static str = "REDUNAR_OVERLAY_OPACITY_PERCENT";

pub const REDUNAR_OVERLAY_METRICS_ENV: &'static str = "REDUNAR_OVERLAY_METRICS";

pub const REDUNAR_REPLAY_TRANSFER_ENV: &'static str = "REDUNAR_REPLAY_TRANSFER";

pub const REDUNAR_REPLAY_FRAME_RATE_ENV: &'static str = "REDUNAR_REPLAY_FRAME_RATE";

pub const REDUNAR_REPLAY_PRODUCTION_ENV: &'static str = "REDUNAR_REPLAY_PRODUCTION";

pub const REDUNAR_CAPTURE_REPLY_SOCKET_ENV: &'static str = "REDUNAR_CAPTURE_REPLY_SOCKET";

pub const REDUNAR_CAPTURE_SOCKET_ENV: &'static str = "REDUNAR_CAPTURE_SOCKET";

pub const REDUNAR_CAPTURE_SESSION_ENV: &'static str = "REDUNAR_CAPTURE_SESSION";

pub const REDUNAR_CAPTURE_PROTOCOL_ENV: &'static str = "REDUNAR_CAPTURE_PROTOCOL";

pub const VK_LAYER_PATH_ENV: &'static str = "VK_LAYER_PATH";

pub const VK_ADD_LAYER_PATH_ENV: &'static str = "VK_ADD_LAYER_PATH";

pub const VK_INSTANCE_LAYERS_ENV: &'static str = "VK_INSTANCE_LAYERS";

pub const LD_PRELOAD_ENV: &'static str = "LD_PRELOAD";

pub const COLON: u8 = 58;

/// Whether a saved command can pass the private capture environment on.
#[derive(Clone, Copy, Debug, PartialEq, Eq, Structural)]
pub enum CaptureLaunchSupport {
    Supported,
    Unavailable(CaptureLaunchUnavailableReason),
}

impl CaptureLaunchSupport {
    pub fn is_supported(self) -> (result: bool)
        ensures
            result == (self is Supported),
    {
        match self {
            CaptureLaunchSupport::Supported => true,
            CaptureLaunchSupport::Unavailable(_) => false,
        }
    }

    pub fn reason(self) -> (result: Option<CaptureLaunchUnavailableReason>)
        ensures
            result == (match self {
                CaptureLaunchSupport::Supported => None,
                CaptureLaunchSupport::Unavailable(reason) => Some(reason),
            }),
    {
        match self {
            CaptureLaunchSupport::Supported => None,
            CaptureLaunchSupport::Unavailable(reason) => Some(reason),
        }
    }
}

/// Why a command cannot be captured.
#[derive(Clone, Copy, Debug, PartialEq, Eq, Structural)]
pub enum CaptureLaunchUnavailableReason {
    FlatpakSandbox,
    SteamForwarding,
}

pub open spec fn reason_text(reason: CaptureLaunchUnavailableReason) -> &'static str {
    match reason {
        CaptureLaunchUnavailableReason::FlatpakSandbox => "Flatpak games cannot access Redunar's private host capture files yet",
        CaptureLaunchUnavailableReason::SteamForwarding => "Steam forwarding cannot pass Redunar's private capture environment to the game when the Steam client is already running",
    }
}

impl CaptureLaunchUnavailableReason {
    /// The user-facing sentence.
    pub fn message(&self) -> (result: &'static str)
        ensures
            result == reason_text(*self),
    {
        match self {
            CaptureLaunchUnavailableReason::FlatpakSandbox => "Flatpak games cannot access Redunar's private host capture files yet",
            CaptureLaunchUnavailableReason::SteamForwarding => "Steam forwarding cannot pass Redunar's private capture environment to the game when the Steam client is already running",
        }
    }
}

/// Which process a caller can treat as the lifetime of a launch.
#[derive(Clone, Copy, Debug, PartialEq, Eq, Structural)]
pub enum GameLaunchProcessOwnership {
    DirectChild,
    ForwardedSteam { app_id: Option<u32> },
}

/// Presentation choices that are passed to a launched child.
#[derive(Clone, Copy, Debug, PartialEq, Eq, Structural)]
pub struct OverlayLaunchConfig {
    pub visible: bool,
    pub preset: OverlayPreset,
    pub layout: OverlayLayout,
    pub palette: OverlayPalette,
    pub branding_visible: bool,
    pub corner: OverlayCorner,
    pub opacity_percent: u8,
    pub metric_bits: u16,
}

impl OverlayLaunchConfig {
    pub fn new(visible: bool, defaults: OverlayDefaults) -> (result: Self)
        ensures
            result == (OverlayLaunchConfig {
                visible,
                preset: OverlayPreset::Compact,
                layout: defaults.layout,
                palette: defaults.palette,
                branding_visible: true,
                corner: OverlayCorner::TopLeft,
                opacity_percent: defaults.opacity_percent,
                metric_bits: defaults.metric_bits,
            }),
    {
        OverlayLaunchConfig {
            visible,
            preset: OverlayPreset::Compact,
            layout: defaults.layout,
            palette: defaults.palette,
            branding_visible: true,
            corner: OverlayCorner::TopLeft,
            opacity_percent: defaults.opacity_percent,
            metric_bits: defaults.metric_bits,
        }
    }

    pub fn with_customization(
        self,
        preset: OverlayPreset,
        corner: OverlayCorner,
        opacity_percent: u8,
    ) -> (result: Self)
        ensures
            result == (OverlayLaunchConfig { preset, corner, opacity_percent, ..self }),
    {
        OverlayLaunchConfig { preset, corner, opacity_percent, ..self }
    }

    pub fn is_visible(self) -> (result: bool)
        ensures
            result == self.visible,
    {
        self.visible
    }

    pub fn with_metrics(self, metric_bits: u16) -> (result: Self)
        ensures
            result == (OverlayLaunchConfig { metric_bits, ..self }),
    {
        OverlayLaunchConfig { metric_bits, ..self }
    }

    pub fn with_style(self, layout: OverlayLayout, palette: OverlayPalette) -> (result: Self)
        ensures
            result == (OverlayLaunchConfig { layout, palette, ..self }),
    {
        OverlayLaunchConfig { layout, palette, ..self }
    }

    pub fn with_branding(self, visible: bool) -> (result: Self)
        ensures
            result == (OverlayLaunchConfig { branding_visible: visible, ..self }),
    {
        OverlayLaunchConfig { branding_visible: visible, ..self }
    }
}

/// A child-only request to transfer frames for replays.
#[derive(Clone, Copy, Debug, PartialEq, Eq, Structural)]
pub struct ReplayTransferLaunchConfig {
    pub requested: bool,
    pub frame_rate: ReplayFrameRate,
}

impl ReplayTransferLaunchConfig {
    pub fn new(requested: bool, frame_rate: ReplayFrameRate) -> (result: Self)
        ensures
            result == (ReplayTransferLaunchConfig { requested, frame_rate }),
    {
        ReplayTransferLaunchConfig { requested, frame_rate }
    }

    pub fn is_requested(self) -> (result: bool)
        ensures
            result == self.requested,
    {
        self.requested
    }

    pub fn frame_rate(self) -> (result: ReplayFrameRate)
        ensures
            result == self.frame_rate,
    {
        self.frame_rate
    }
}

impl Default for ReplayTransferLaunchConfig {
    fn default() -> (result: Self)
        ensures
            result == (ReplayTransferLaunchConfig {
                requested: false,
                frame_rate: ReplayFrameRate::Fps60,
            }),
    {
        ReplayTransferLaunchConfig { requested: false, frame_rate: ReplayFrameRate::Fps60 }
    }
}

/// A launch failure with a user-facing explanation.
#[derive(Clone, Debug, PartialEq, Eq)]
pub struct CaptureLaunchError {
    message: String,
}

impl View for CaptureLaunchError {
    type V = Seq<char>;

    closed spec fn view(&self) -> Seq<char> {
        self.message@
    }
}

impl CaptureLaunchError {
    pub fn new(message: &str) -> (result: Self)
        ensures
            result@ == message@,
    {
        CaptureLaunchError { message: message.to_owned() }
    }

    /// The user-facing explanation.
    pub fn message(&self) -> (result: &str)
        ensures
            result@ == self@,
    {
        self.message.as_str()
    }

    fn labelled(label: &str, problem: &str) -> (result: Self)
        ensures
            result@ == label@ + problem@,
    {
        let mut message = label.to_owned();
        message.append(problem);
        CaptureLaunchError { message }
    }
}

/// Whether a file name is one of the names of the Steam client.
pub open spec fn is_steam_client(name: Seq<u8>) -> bool {
    text::bytes_alike(name, "steam".spec_bytes()) || text::bytes_alike(name, "steam.sh".spec_bytes())
        || text::bytes_alike(name, "bin_steam.sh".spec_bytes())
}

/// Whether a launch can see files of the host: any but a Flatpak launch.
pub open spec fn sees_host_files(executable: Seq<u8>) -> bool {
    match paths::final_name(executable) {
        None => true,
        Some(name) => !text::bytes_alike(name, "flatpak".spec_bytes()),
    }
}

pub fn supports_host_explicit_layer_launch(executable: &[u8]) -> (result: bool)
    ensures
        result == sees_host_files(executable@),
{
    match paths::file_name(executable) {
        None => true,
        Some(name) => !text::bytes_eq_ignore_case(name.as_slice(), "flatpak".as_bytes()),
    }
}

/// Whether an argument is text that starts with the Steam link scheme.
pub open spec fn is_steam_link(argument: Seq<u8>) -> bool {
    vstd::utf8::valid_utf8(argument) && text::after_prefix(
        argument,
        "steam://".spec_bytes(),
    ) is Some
}

/// The app that follows a launch switch, where it is a number above zero.
pub open spec fn forwarded_app(arguments: Seq<Seq<u8>>, index: int) -> Option<u32> {
    if index >= arguments.len() || !vstd::utf8::valid_utf8(arguments[index]) {
        None
    } else {
        match text::parsed_decimal(vstd::utf8::decode_utf8(arguments[index]), u32::MAX as nat) {
            Some(value) if value != 0 => Some(value as u32),
            _ => None,
        }
    }
}

/// Which process a command's lifetime is.
pub open spec fn ownership(executable: Seq<u8>, arguments: Seq<Seq<u8>>) -> GameLaunchProcessOwnership {
    let launch = text::first_index(arguments, "-applaunch".spec_bytes());
    if !(paths::final_name(executable) matches Some(name) && is_steam_client(name)) {
        GameLaunchProcessOwnership::DirectChild
    } else if launch < arguments.len() {
        GameLaunchProcessOwnership::ForwardedSteam { app_id: forwarded_app(arguments, launch + 1) }
    } else if exists|i: int| 0 <= i < arguments.len() && is_steam_link(#[trigger] arguments[i]) {
        GameLaunchProcessOwnership::ForwardedSteam { app_id: None }
    } else {
        GameLaunchProcessOwnership::DirectChild
    }
}

fn starts_with_bytes(value: &[u8], prefix: &[u8]) -> (result: bool)
    ensures
        result == text::after_prefix(value@, prefix@) is Some,
{
    if prefix.len() > value.len() {
        return false;
    }
    let head = vstd::slice::slice_subrange(value, 0, prefix.len());
    assert(head@ =~= value@.take(prefix@.len() as int));
    text::same_bytes(head, prefix)
}

pub(crate) fn app_id_of(argument: &[u8]) -> (result: Option<u32>)
    ensures
        result == forwarded_app(seq![argument@], 0),
{
    match text::decode(argument) {
        None => None,
        Some(decoded) => {
            let chars = text::chars_of(decoded.as_str());
            match text::parse_decimal(chars.as_slice(), u32::MAX as u64) {
                Some(value) => if value != 0 {
                    Some(value as u32)
                } else {
                    None
                },
                None => None,
            }
        },
    }
}

pub fn game_launch_process_ownership(executable: &[u8], arguments: &[Vec<u8>]) -> (result:
    GameLaunchProcessOwnership)
    ensures
        result == ownership(executable@, text::byte_views(arguments@)),
{
    let ghost all = text::byte_views(arguments@);
    let is_client = match paths::file_name(executable) {
        None => false,
        Some(name) => text::bytes_eq_ignore_case(name.as_slice(), "steam".as_bytes())
            || text::bytes_eq_ignore_case(name.as_slice(), "steam.sh".as_bytes())
            || text::bytes_eq_ignore_case(name.as_slice(), "bin_steam.sh".as_bytes()),
    };
    if !is_client {
        return GameLaunchProcessOwnership::DirectChild;
    }
    let mut index: usize = 0;
    while index < arguments.len()
        invariant
            index <= arguments@.len(),
            all == text::byte_views(arguments@),
            paths::final_name(executable@) matches Some(name) && is_steam_client(name),
            forall|i: int| 0 <= i < index ==> all[i] != "-applaunch".spec_bytes(),
        decreases arguments@.len() - index,
    {
        assert(all[index as int] == arguments@[index as int]@);
        if text::same_bytes(arguments[index].as_slice(), "-applaunch".as_bytes()) {
            proof {
                text::lemma_first_index_is(all, "-applaunch".spec_bytes(), index as int);
            }
            if index + 1 < arguments.len() {
                assert(all[index + 1] == arguments@[index + 1]@);
                return GameLaunchProcessOwnership::ForwardedSteam {
                    app_id: app_id_of(arguments[index + 1].as_slice()),
                };
            }
            return GameLaunchProcessOwnership::ForwardedSteam { app_id: None };
        }
        index = index + 1;
    }
    proof {
        text::lemma_first_index_is(all, "-applaunch".spec_bytes(), all.len() as int);
    }
    let mut link: usize = 0;
    while link < arguments.len()
        invariant
            link <= arguments@.len(),
            all == text::byte_views(arguments@),
            paths::final_name(executable@) matches Some(name) && is_steam_client(name),
            text::first_index(all, "-applaunch".spec_bytes()) == all.len(),
            forall|i: int| 0 <= i < link ==> !is_steam_link(#[trigger] all[i]),
        decreases arguments@.len() - link,
    {
        assert(all[link as int] == arguments@[link as int]@);
        if text::decode(arguments[link].as_slice()).is_some() && starts_with_bytes(
            arguments[link].as_slice(),
            "steam://".as_bytes(),
        ) {
            assert(is_steam_link(all[link as int]));
            return GameLaunchProcessOwnership::ForwardedSteam { app_id: None };
        }
        assert(!is_steam_link(all[link as int]));
        link = link + 1;
    }
    GameLaunchProcessOwnership::DirectChild
}

/// Whether a command can be captured, or why not.
pub open spec fn launch_support(executable: Seq<u8>, arguments: Seq<Seq<u8>>) -> CaptureLaunchSupport {
    if !sees_host_files(executable) {
        CaptureLaunchSupport::Unavailable(CaptureLaunchUnavailableReason::FlatpakSandbox)
    } else if ownership(executable, arguments) is ForwardedSteam {
        CaptureLaunchSupport::Unavailable(CaptureLaunchUnavailableReason::SteamForwarding)
    } else {
        CaptureLaunchSupport::Supported
    }
}

pub fn capture_launch_support(executable: &[u8], arguments: &[Vec<u8>]) -> (result:
    CaptureLaunchSupport)
    ensures
        result == launch_support(executable@, text::byte_views(arguments@)),
{
    if !supports_host_explicit_layer_launch(executable) {
        return CaptureLaunchSupport::Unavailable(CaptureLaunchUnavailableReason::FlatpakSandbox);
    }
    match game_launch_process_ownership(executable, arguments) {
        GameLaunchProcessOwnership::ForwardedSteam { app_id: _ } => {
            CaptureLaunchSupport::Unavailable(CaptureLaunchUnavailableReason::SteamForwarding)
        },
        GameLaunchProcessOwnership::DirectChild => CaptureLaunchSupport::Supported,
    }
}

pub fn supports_host_capture_launch(executable: &[u8], arguments: &[Vec<u8>]) -> (result: bool)
    ensures
        result == (launch_support(executable@, text::byte_views(arguments@)) is Supported),
{
    capture_launch_support(executable, arguments).is_supported()
}

pub fn validate_absolute(label: &str, path: &[u8]) -> (result: Result<(), CaptureLaunchError>)
    ensures
        match result {
            Ok(()) => paths::absolute(path@),
            Err(error) => !paths::absolute(path@) && error@ == label@ + " must be an absolute path"@,
        },
{
    if !paths::is_absolute(path) {
        return Err(CaptureLaunchError::labelled(label, " must be an absolute path"));
    }
    Ok(())
}

pub fn validate_no_nul(label: &str, value: &[u8]) -> (result: Result<(), CaptureLaunchError>)
    ensures
        match result {
            Ok(()) => !paths::has_nul(value@),
            Err(error) => paths::has_nul(value@) && error@ == label@ + " contains a NUL byte"@,
        },
{
    if paths::contains_nul(value) {
        return Err(CaptureLaunchError::labelled(label, " contains a NUL byte"));
    }
    Ok(())
}

/// A search path with a directory in front of what was inherited. Only a
/// directory that holds a separator itself cannot stand in such a list.
pub open spec fn prepended(directory: Seq<u8>, inherited: Option<Seq<u8>>) -> Option<Seq<u8>> {
    if directory.contains(COLON) {
        None
    } else {
        match inherited {
            None => Some(directory),
            Some(list) => Some(directory.push(COLON) + list),
        }
    }
}

/// Puts a directory in front of an inherited search path, which is kept byte
/// for byte.
pub fn prepend_search_path(directory: &[u8], inherited: Option<&[u8]>) -> (result: Option<Vec<u8>>)
    ensures
        ({
            let list = match inherited {
                Some(list) => Some(list@),
                None => None,
            };
            match result {
                Some(joined) => prepended(directory@, list) == Some(joined@),
                None => prepended(directory@, list) is None,
            }
        }),
{
    let position: usize = text::find_byte(directory, COLON);
    proof {
        text::lemma_first_index(directory@, COLON);
        if position < directory@.len() {
            assert(directory@[position as int] == COLON);
        }
    }
    if position < directory.len() {
        return None;
    }
    let mut joined = vstd::slice::slice_to_vec(directory);
    if let Some(list) = inherited {
        joined.push(COLON);
        joined.extend_from_slice(list);
        assert(joined@ =~= directory@.push(COLON) + list@);
    }
    Some(joined)
}

/// The bytes of the text that lossy decoding makes of one part.
pub open spec fn lossy_bytes(part: Seq<u8>) -> Seq<u8> {
    vstd::utf8::encode_utf8(text::lossy_text(part))
}

/// The names in a colon-separated list, decoded part by part.
pub open spec fn colon_list(value: Seq<u8>) -> Seq<Seq<u8>> {
    text::nonempty_parts(value, COLON).map_values(|part: Seq<u8>| lossy_bytes(part))
}

/// Splits a colon-separated list.
pub fn split_colon_list(value: &[u8]) -> (result: Vec<Vec<u8>>)
    ensures
        text::byte_views(result@) == colon_list(value@),
{
    let parts = text::split_nonempty(value, COLON);
    let ghost all = text::nonempty_parts(value@, COLON);
    let mut result: Vec<Vec<u8>> = Vec::new();
    let mut index: usize = 0;
    while index < parts.len()
        invariant
            index <= parts@.len(),
            all == text::byte_views(parts@),
            result@.len() == index,
            forall|i: int| 0 <= i < index ==> (#[trigger] result@[i])@ == lossy_bytes(all[i]),
        decreases parts@.len() - index,
    {
        assert(all[index as int] == parts@[index as int]@);
        let decoded = text::decode_lossy(parts[index].as_slice());
        result.push(vstd::slice::slice_to_vec(decoded.as_str().as_bytes()));
        index = index + 1;
    }
    assert(text::byte_views(result@) =~= colon_list(value@));
    result
}

/// Names with a colon between each two.
pub open spec fn colon_joined(names: Seq<Seq<u8>>) -> Seq<u8>
    decreases names.len(),
{
    if names.len() == 0 {
        Seq::empty()
    } else if names.len() == 1 {
        names[0]
    } else {
        colon_joined(names.drop_last()).push(COLON) + names.last()
    }
}

/// Whether every name is text.
pub open spec fn all_text(names: Seq<Seq<u8>>) -> bool {
    forall|i: int| 0 <= i < names.len() ==> vstd::utf8::valid_utf8(#[trigger] names[i])
}

/// Names that are text make a list that is text.
proof fn lemma_joined_text(names: Seq<Seq<u8>>)
    requires
        all_text(names),
    ensures
        vstd::utf8::valid_utf8(colon_joined(names)),
    decreases names.len(),
{
    if names.len() == 1 {
        assert(vstd::utf8::valid_utf8(names[0]));
    } else if names.len() > 1 {
        let before = names.drop_last();
        assert forall|i: int| 0 <= i < before.len() implies vstd::utf8::valid_utf8(
            #[trigger] before[i],
        ) by {
            assert(vstd::utf8::valid_utf8(names[i]));
        }
        lemma_joined_text(before);
        assert(vstd::utf8::valid_utf8(names[names.len() - 1]));
        let colon = seq![COLON];
        vstd::utf8::is_ascii_chars_encode_utf8(seq![':']);
        assert(vstd::utf8::encode_utf8(seq![':']) =~= colon);
        vstd::utf8::encode_utf8_valid_utf8(seq![':']);
        vstd::utf8::valid_utf8_concat(colon_joined(before), colon);
        vstd::utf8::valid_utf8_concat(colon_joined(before) + colon, names.last());
        assert(colon_joined(before) + colon =~= colon_joined(before).push(COLON));
    }
}

/// Joins names with colons. What is not text in the list is replaced.
pub fn join_colon_list(names: &[Vec<u8>]) -> (result: Vec<u8>)
    ensures
        result@ == lossy_bytes(colon_joined(text::byte_views(names@))),
        all_text(text::byte_views(names@)) ==> result@ == colon_joined(text::byte_views(names@)),
{
    let ghost all = text::byte_views(names@);
    let mut joined: Vec<u8> = Vec::new();
    let mut index: usize = 0;
    assert(all.take(0) =~= Seq::<Seq<u8>>::empty());
    assert(joined@ =~= colon_joined(all.take(0)));
    while index < names.len()
        invariant
            index <= names@.len(),
            all == text::byte_views(names@),
            joined@ == colon_joined(all.take(index as int)),
        decreases names@.len() - index,
    {
        if index > 0 {
            joined.push(COLON);
        }
        joined.extend_from_slice(names[index].as_slice());
        proof {
            let next = all.take(index + 1);
            assert(next.drop_last() =~= all.take(index as int));
            assert(next.last() == names@[index as int]@);
            assert(joined@ =~= colon_joined(next));
        }
        index = index + 1;
    }
    assert(all.take(index as int) =~= all);
    let decoded = text::decode_lossy(joined.as_slice());
    proof {
        if all_text(all) {
            lemma_joined_text(all);
            vstd::utf8::decode_utf8_encode_utf8(joined@);
        }
    }
    vstd::slice::slice_to_vec(decoded.as_str().as_bytes())
}

/// The layers to enable: those inherited, and the capture layer at the end
/// unless it is among them.
pub open spec fn enabled_layers(inherited: Seq<Seq<u8>>) -> Seq<Seq<u8>> {
    if inherited.contains(VULKAN_CAPTURE_LAYER_NAME.spec_bytes()) {
        inherited
    } else {
        inherited.push(VULKAN_CAPTURE_LAYER_NAME.spec_bytes())
    }
}

/// A shell-free description of one child process with the capture layer.
#[derive(Debug)]
pub struct CaptureLaunchPlan {
    executable: Vec<u8>,
    arguments: Vec<Vec<u8>>,
    working_directory: Option<Vec<u8>>,
    environment: Environment,
    existing_vulkan_layers: Vec<Vec<u8>>,
}

/// What a [`CaptureLaunchPlan`] holds.
#[verifier::ext_equal]
pub ghost struct PlanView {
    pub executable: Seq<u8>,
    pub arguments: Seq<Seq<u8>>,
    pub working_directory: Option<Seq<u8>>,
    pub environment: Map<Seq<u8>, Seq<u8>>,
    pub existing_vulkan_layers: Seq<Seq<u8>>,
}

impl View for CaptureLaunchPlan {
    type V = PlanView;

    closed spec fn view(&self) -> PlanView {
        PlanView {
            executable: self.executable@,
            arguments: text::byte_views(self.arguments@),
            working_directory: match self.working_directory {
                Some(directory) => Some(directory@),
                None => None,
            },
            environment: self.environment@,
            existing_vulkan_layers: text::byte_views(self.existing_vulkan_layers@),
        }
    }
}

/// Whether some argument holds a NUL byte.
pub open spec fn any_nul(arguments: Seq<Seq<u8>>) -> bool {
    exists|i: int| 0 <= i < arguments.len() && paths::has_nul(#[trigger] arguments[i])
}

/// Why a launch cannot be planned.
pub open spec fn plan_fault(
    executable: Seq<u8>,
    arguments: Seq<Seq<u8>>,
    layer_directory: Seq<u8>,
    socket: Seq<u8>,
    inherited: Map<Seq<u8>, Seq<u8>>,
) -> Option<Seq<char>> {
    if !paths::absolute(executable) {
        Some("game executable"@ + " must be an absolute path"@)
    } else if !paths::absolute(layer_directory) {
        Some("layer manifest directory"@ + " must be an absolute path"@)
    } else if !paths::absolute(socket) {
        Some("capture socket"@ + " must be an absolute path"@)
    } else if paths::has_nul(executable) {
        Some("game executable"@ + " contains a NUL byte"@)
    } else if paths::has_nul(layer_directory) {
        Some("layer manifest directory"@ + " contains a NUL byte"@)
    } else if paths::has_nul(socket) {
        Some("capture socket"@ + " contains a NUL byte"@)
    } else if any_nul(arguments) {
        Some("game argument"@ + " contains a NUL byte"@)
    } else {
        match launch_support(executable, arguments) {
            CaptureLaunchSupport::Unavailable(reason) => Some(
                reason_text(reason)@ + "; launch without metrics or overlay"@,
            ),
            CaptureLaunchSupport::Supported => if inherited.contains_key(
                VK_LAYER_PATH_ENV.spec_bytes(),
            ) {
                Some("VK_LAYER_PATH is already set; Redunar will not silently override it"@)
            } else if layer_directory.contains(COLON) {
                Some("VK_ADD_LAYER_PATH contains an invalid path list"@)
            } else {
                None
            },
        }
    }
}

/// The inherited Vulkan layers.
pub open spec fn inherited_layers(inherited: Map<Seq<u8>, Seq<u8>>) -> Seq<Seq<u8>> {
    match environment::value_of(inherited, VK_INSTANCE_LAYERS_ENV.spec_bytes()) {
        Some(value) => colon_list(value),
        None => Seq::empty(),
    }
}

/// The variables of a plan before it is configured.
pub open spec fn plan_variables(
    layer_directory: Seq<u8>,
    socket: Seq<u8>,
    session: Seq<u8>,
    protocol: u16,
    inherited: Map<Seq<u8>, Seq<u8>>,
) -> Map<Seq<u8>, Seq<u8>> {
    Map::<Seq<u8>, Seq<u8>>::empty().insert(
        VK_ADD_LAYER_PATH_ENV.spec_bytes(),
        prepended(
            layer_directory,
            environment::value_of(inherited, VK_ADD_LAYER_PATH_ENV.spec_bytes()),
        )->0,
    ).insert(
        VK_INSTANCE_LAYERS_ENV.spec_bytes(),
        colon_joined(enabled_layers(inherited_layers(inherited))),
    ).insert(REDUNAR_CAPTURE_SOCKET_ENV.spec_bytes(), socket).insert(
        REDUNAR_CAPTURE_SESSION_ENV.spec_bytes(),
        vstd::utf8::encode_utf8(text::hex_text(session)),
    ).insert(
        REDUNAR_CAPTURE_PROTOCOL_ENV.spec_bytes(),
        vstd::utf8::encode_utf8(text::decimal(protocol as nat)),
    ).insert(REDUNAR_OVERLAY_VISIBLE_ENV.spec_bytes(), "0".spec_bytes()).insert(
        REDUNAR_REPLAY_TRANSFER_ENV.spec_bytes(),
        "0".spec_bytes(),
    ).insert(REDUNAR_REPLAY_PRODUCTION_ENV.spec_bytes(), "0".spec_bytes()).insert(
        REDUNAR_REPLAY_FRAME_RATE_ENV.spec_bytes(),
        "60".spec_bytes(),
    )
}

/// The variables of an overlay configuration, over those there are.
pub open spec fn overlay_variables(
    variables: Map<Seq<u8>, Seq<u8>>,
    config: OverlayLaunchConfig,
) -> Map<Seq<u8>, Seq<u8>> {
    variables.insert(
        REDUNAR_OVERLAY_VISIBLE_ENV.spec_bytes(),
        overlay::switch_text(config.visible).spec_bytes(),
    ).insert(
        REDUNAR_OVERLAY_PRESET_ENV.spec_bytes(),
        overlay::preset_text(config.preset).spec_bytes(),
    ).insert(
        REDUNAR_OVERLAY_LAYOUT_ENV.spec_bytes(),
        overlay::layout_text(config.layout).spec_bytes(),
    ).insert(
        REDUNAR_OVERLAY_PALETTE_ENV.spec_bytes(),
        overlay::palette_text(config.palette).spec_bytes(),
    ).insert(
        REDUNAR_OVERLAY_BRANDING_ENV.spec_bytes(),
        overlay::switch_text(config.branding_visible).spec_bytes(),
    ).insert(
        REDUNAR_OVERLAY_CORNER_ENV.spec_bytes(),
        overlay::corner_text(config.corner).spec_bytes(),
    ).insert(
        REDUNAR_OVERLAY_OPACITY_ENV.spec_bytes(),
        vstd::utf8::encode_utf8(text::decimal(config.opacity_percent as nat)),
    ).insert(
        REDUNAR_OVERLAY_METRICS_ENV.spec_bytes(),
        vstd::utf8::encode_utf8(text::decimal(config.metric_bits as nat)),
    )
}

/// The variables of a replay request, over those there are.
pub open spec fn replay_variables(
    variables: Map<Seq<u8>, Seq<u8>>,
    config: ReplayTransferLaunchConfig,
) -> Map<Seq<u8>, Seq<u8>> {
    variables.insert(
        REDUNAR_REPLAY_TRANSFER_ENV.spec_bytes(),
        overlay::switch_text(config.requested).spec_bytes(),
    ).insert(
        REDUNAR_REPLAY_PRODUCTION_ENV.spec_bytes(),
        overlay::switch_text(config.requested).spec_bytes(),
    ).insert(
        REDUNAR_REPLAY_FRAME_RATE_ENV.spec_bytes(),
        replay_settings::rate_text(config.frame_rate).spec_bytes(),
    )
}

/// Assigns a number in decimal.
pub(crate) fn set_number(variables: &mut Environment, name: &str, value: u64)
    ensures
        final(variables)@ == old(variables)@.insert(
            name.spec_bytes(),
            vstd::utf8::encode_utf8(text::decimal(value as nat)),
        ),
{
    let digits = text::string_of(text::decimal_chars(value).as_slice());
    variables.set(name, digits.as_str().as_bytes());
}

/// Assigns the variables of an overlay configuration.
pub(crate) fn set_overlay(variables: &mut Environment, config: OverlayLaunchConfig)
    ensures
        final(variables)@ == overlay_variables(old(variables)@, config),
{
    variables.set(REDUNAR_OVERLAY_VISIBLE_ENV, overlay::switch_name(config.visible).as_bytes());
    variables.set(
        REDUNAR_OVERLAY_PRESET_ENV,
        overlay::overlay_preset_name(config.preset).as_bytes(),
    );
    variables.set(
        REDUNAR_OVERLAY_LAYOUT_ENV,
        overlay::overlay_layout_name(config.layout).as_bytes(),
    );
    variables.set(
        REDUNAR_OVERLAY_PALETTE_ENV,
        overlay::overlay_palette_name(config.palette).as_bytes(),
    );
    variables.set(
        REDUNAR_OVERLAY_BRANDING_ENV,
        overlay::switch_name(config.branding_visible).as_bytes(),
    );
    variables.set(
        REDUNAR_OVERLAY_CORNER_ENV,
        overlay::overlay_corner_name(config.corner).as_bytes(),
    );
    set_number(variables, REDUNAR_OVERLAY_OPACITY_ENV, config.opacity_percent as u64);
    set_number(variables, REDUNAR_OVERLAY_METRICS_ENV, config.metric_bits as u64);
}

/// Assigns the variables of a replay request.
pub(crate) fn set_replay(variables: &mut Environment, config: ReplayTransferLaunchConfig)
    ensures
        final(variables)@ == replay_variables(old(variables)@, config),
{
    variables.set(
        REDUNAR_REPLAY_TRANSFER_ENV,
        overlay::switch_name(config.requested).as_bytes(),
    );
    variables.set(
        REDUNAR_REPLAY_PRODUCTION_ENV,
        overlay::switch_name(config.requested).as_bytes(),
    );
    variables.set(
        REDUNAR_REPLAY_FRAME_RATE_ENV,
        replay_settings::frame_rate_name(config.frame_rate).as_bytes(),
    );
}

fn check_arguments(arguments: &[Vec<u8>]) -> (result: Result<(), CaptureLaunchError>)
    ensures
        match result {
            Ok(()) => !any_nul(text::byte_views(arguments@)),
            Err(error) => any_nul(text::byte_views(arguments@)) && error@ == "game argument"@
                + " contains a NUL byte"@,
        },
{
    let ghost all = text::byte_views(arguments@);
    let mut index: usize = 0;
    while index < arguments.len()
        invariant
            index <= arguments@.len(),
            all == text::byte_views(arguments@),
            forall|i: int| 0 <= i < index ==> !paths::has_nul(#[trigger] all[i]),
        decreases arguments@.len() - index,
    {
        assert(all[index as int] == arguments@[index as int]@);
        if let Err(error) = validate_no_nul("game argument", arguments[index].as_slice()) {
            assert(paths::has_nul(all[index as int]));
            return Err(error);
        }
        index = index + 1;
    }
    Ok(())
}

fn layers_to_enable(inherited: &[Vec<u8>]) -> (result: Vec<Vec<u8>>)
    ensures
        text::byte_views(result@) == enabled_layers(text::byte_views(inherited@)),
{
    let ghost all = text::byte_views(inherited@);
    let ghost name = VULKAN_CAPTURE_LAYER_NAME.spec_bytes();
    let mut result: Vec<Vec<u8>> = Vec::new();
    let mut present = false;
    let mut index: usize = 0;
    while index < inherited.len()
        invariant
            index <= inherited@.len(),
            all == text::byte_views(inherited@),
            name == VULKAN_CAPTURE_LAYER_NAME.spec_bytes(),
            text::byte_views(result@) == all.take(index as int),
            present == all.take(index as int).contains(name),
        decreases inherited@.len() - index,
    {
        assert(all[index as int] == inherited@[index as int]@);
        let layer = inherited[index].as_slice();
        let ghost before = all.take(index as int);
        let ghost next = all.take(index + 1);
        let same = text::same_bytes(layer, VULKAN_CAPTURE_LAYER_NAME.as_bytes());
        proof {
            assert(next =~= before.push(all[index as int]));
            if same {
                assert(next[index as int] == name);
            } else if before.contains(name) {
                let at = choose|at: int| 0 <= at < before.len() && before[at] == name;
                assert(next[at] == name);
            } else if next.contains(name) {
                let at = choose|at: int| 0 <= at < next.len() && next[at] == name;
                assert(at < index ==> before[at] == name);
            }
        }
        if same {
            present = true;
        }
        result.push(vstd::slice::slice_to_vec(layer));
        assert(text::byte_views(result@) =~= next);
        index = index + 1;
    }
    assert(all.take(index as int) =~= all);
    if !present {
        result.push(vstd::slice::slice_to_vec(VULKAN_CAPTURE_LAYER_NAME.as_bytes()));
        assert(text::byte_views(result@) =~= all.push(name));
    }
    result
}

impl CaptureLaunchPlan {
    /// Plans a child with the capture layer. `protocol` is the version of the
    /// capture protocol, and `inherited` a snapshot of the environment that
    /// the child will inherit.
    pub fn new(
        executable: Vec<u8>,
        arguments: Vec<Vec<u8>>,
        layer_manifest_directory: Vec<u8>,
        socket_path: Vec<u8>,
        session_id: CaptureSessionId,
        protocol: u16,
        inherited: &Environment,
    ) -> (result: Result<Self, CaptureLaunchError>)
        ensures
            ({
                let fault = plan_fault(
                    executable@,
                    text::byte_views(arguments@),
                    layer_manifest_directory@,
                    socket_path@,
                    inherited@,
                );
                match result {
                    Ok(plan) => fault is None && plan@ == (PlanView {
                        executable: executable@,
                        arguments: text::byte_views(arguments@),
                        working_directory: None,
                        environment: plan_variables(
                            layer_manifest_directory@,
                            socket_path@,
                            session_id@,
                            protocol,
                            inherited@,
                        ),
                        existing_vulkan_layers: inherited_layers(inherited@),
                    }),
                    Err(error) => fault == Some(error@),
                }
            }),
    {
        if let Err(error) = validate_absolute("game executable", executable.as_slice()) {
            return Err(error);
        }
        if let Err(error) = validate_absolute(
            "layer manifest directory",
            layer_manifest_directory.as_slice(),
        ) {
            return Err(error);
        }
        if let Err(error) = validate_absolute("capture socket", socket_path.as_slice()) {
            return Err(error);
        }
        if let Err(error) = validate_no_nul("game executable", executable.as_slice()) {
            return Err(error);
        }
        if let Err(error) = validate_no_nul(
            "layer manifest directory",
            layer_manifest_directory.as_slice(),
        ) {
            return Err(error);
        }
        if let Err(error) = validate_no_nul("capture socket", socket_path.as_slice()) {
            return Err(error);
        }
        if let Err(error) = check_arguments(arguments.as_slice()) {
            return Err(error);
        }
        if let CaptureLaunchSupport::Unavailable(reason) = capture_launch_support(
            executable.as_slice(),
            arguments.as_slice(),
        ) {
            return Err(
                CaptureLaunchError::labelled(
                    reason.message(),
                    "; launch without metrics or overlay",
                ),
            );
        }
        if inherited.contains(VK_LAYER_PATH_ENV.as_bytes()) {
            return Err(
                CaptureLaunchError::new(
                    "VK_LAYER_PATH is already set; Redunar will not silently override it",
                ),
            );
        }
        let search_path = match prepend_search_path(
            layer_manifest_directory.as_slice(),
            inherited.get(VK_ADD_LAYER_PATH_ENV.as_bytes()),
        ) {
            None => {
                return Err(
                    CaptureLaunchError::new("VK_ADD_LAYER_PATH contains an invalid path list"),
                );
            },
            Some(search_path) => search_path,
        };
        let existing_vulkan_layers = match inherited.get(VK_INSTANCE_LAYERS_ENV.as_bytes()) {
            None => {
                let none: Vec<Vec<u8>> = Vec::new();
                assert(text::byte_views(none@) =~= Seq::<Seq<u8>>::empty());
                none
            },
            Some(value) => split_colon_list(value),
        };
        let enabled = layers_to_enable(existing_vulkan_layers.as_slice());
        proof {
            let names = enabled_layers(inherited_layers(inherited@));
            assert forall|i: int| 0 <= i < names.len() implies vstd::utf8::valid_utf8(
                #[trigger] names[i],
            ) by {
                if i < inherited_layers(inherited@).len() {
                    let value = environment::value_of(
                        inherited@,
                        VK_INSTANCE_LAYERS_ENV.spec_bytes(),
                    )->0;
                    let part = text::nonempty_parts(value, COLON)[i];
                    assert(names[i] == lossy_bytes(part));
                    vstd::utf8::encode_utf8_valid_utf8(text::lossy_text(part));
                } else {
                    vstd::utf8::encode_utf8_valid_utf8(VULKAN_CAPTURE_LAYER_NAME@);
                }
            }
        }
        let joined = join_colon_list(enabled.as_slice());
        let session = session_id.to_hex();
        let mut environment = Environment::new();
        environment.set(VK_ADD_LAYER_PATH_ENV, search_path.as_slice());
        environment.set(VK_INSTANCE_LAYERS_ENV, joined.as_slice());
        environment.set(REDUNAR_CAPTURE_SOCKET_ENV, socket_path.as_slice());
        environment.set(REDUNAR_CAPTURE_SESSION_ENV, session.as_str().as_bytes());
        set_number(&mut environment, REDUNAR_CAPTURE_PROTOCOL_ENV, protocol as u64);
        environment.set(REDUNAR_OVERLAY_VISIBLE_ENV, "0".as_bytes());
        environment.set(REDUNAR_REPLAY_TRANSFER_ENV, "0".as_bytes());
        environment.set(REDUNAR_REPLAY_PRODUCTION_ENV, "0".as_bytes());
        environment.set(REDUNAR_REPLAY_FRAME_RATE_ENV, "60".as_bytes());
        Ok(
            CaptureLaunchPlan {
                executable,
                arguments,
                working_directory: None,
                environment,
                existing_vulkan_layers,
            },
        )
    }

    /// Sets the working directory of the child.
    pub fn with_working_directory(self, working_directory: Option<Vec<u8>>) -> (result: Result<
        Self,
        CaptureLaunchError,
    >)
        ensures
            match working_directory {
                None => result matches Ok(plan) && plan@ == (PlanView {
                    working_directory: None,
                    ..self@
                }),
                Some(directory) => match result {
                    Ok(plan) => paths::absolute(directory@) && !paths::has_nul(directory@) && plan@
                        == (PlanView { working_directory: Some(directory@), ..self@ }),
                    Err(error) => if !paths::absolute(directory@) {
                        error@ == "game working directory"@ + " must be an absolute path"@
                    } else {
                        paths::has_nul(directory@) && error@ == "game working directory"@
                            + " contains a NUL byte"@
                    },
                },
            },
    {
        if let Some(directory) = &working_directory {
            if let Err(error) = validate_absolute("game working directory", directory.as_slice()) {
                return Err(error);
            }
            if let Err(error) = validate_no_nul("game working directory", directory.as_slice()) {
                return Err(error);
            }
        }
        let mut plan = self;
        plan.working_directory = working_directory;
        Ok(plan)
    }

    /// Preloads the OpenGL observer in front of what is preloaded already.
    pub fn with_opengl_capture_library(self, library: &[u8], inherited: &Environment) -> (result:
        Result<Self, CaptureLaunchError>)
        ensures
            ({
                let list = prepended(
                    library@,
                    environment::value_of(inherited@, LD_PRELOAD_ENV.spec_bytes()),
                );
                match result {
                    Ok(plan) => paths::absolute(library@) && !paths::has_nul(library@) && (list matches Some(
                        preload,
                    ) && plan@ == (PlanView {
                        environment: self@.environment.insert(LD_PRELOAD_ENV.spec_bytes(), preload),
                        ..self@
                    })),
                    Err(error) => if !paths::absolute(library@) {
                        error@ == "OpenGL capture library"@ + " must be an absolute path"@
                    } else if paths::has_nul(library@) {
                        error@ == "OpenGL capture library"@ + " contains a NUL byte"@
                    } else {
                        list is None && error@ == "VK_ADD_LAYER_PATH contains an invalid path list"@
                    },
                }
            }),
    {
        if let Err(error) = validate_absolute("OpenGL capture library", library) {
            return Err(error);
        }
        if let Err(error) = validate_no_nul("OpenGL capture library", library) {
            return Err(error);
        }
        match prepend_search_path(library, inherited.get(LD_PRELOAD_ENV.as_bytes())) {
            None => Err(
                CaptureLaunchError::new("VK_ADD_LAYER_PATH contains an invalid path list"),
            ),
            Some(preload) => {
                let mut plan = self;
                plan.environment.set(LD_PRELOAD_ENV, preload.as_slice());
                Ok(plan)
            },
        }
    }

    /// Adds the overlay configuration.
    pub fn with_overlay_config(self, config: OverlayLaunchConfig) -> (result: Self)
        ensures
            result@ == (PlanView {
                environment: overlay_variables(self@.environment, config),
                ..self@
            }),
    {
        let mut plan = self;
        set_overlay(&mut plan.environment, config);
        plan
    }

    /// Adds the replay request.
    pub fn with_replay_transfer_config(self, config: ReplayTransferLaunchConfig) -> (result: Self)
        ensures
            result@ == (PlanView {
                environment: replay_variables(self@.environment, config),
                ..self@
            }),
    {
        let mut plan = self;
        set_replay(&mut plan.environment, config);
        plan
    }

    /// Adds the private telemetry file.
    pub fn with_overlay_telemetry_path(self, telemetry_path: &[u8]) -> (result: Result<
        Self,
        CaptureLaunchError,
    >)
        ensures
            match result {
                Ok(plan) => paths::absolute(telemetry_path@) && !paths::has_nul(telemetry_path@)
                    && plan@ == (PlanView {
                    environment: self@.environment.insert(
                        REDUNAR_OVERLAY_TELEMETRY_ENV.spec_bytes(),
                        telemetry_path@,
                    ),
                    ..self@
                }),
                Err(error) => if !paths::absolute(telemetry_path@) {
                    error@ == "overlay telemetry file"@ + " must be an absolute path"@
                } else {
                    paths::has_nul(telemetry_path@) && error@ == "overlay telemetry file"@
                        + " contains a NUL byte"@
                },
            },
    {
        if let Err(error) = validate_absolute("overlay telemetry file", telemetry_path) {
            return Err(error);
        }
        if let Err(error) = validate_no_nul("overlay telemetry file", telemetry_path) {
            return Err(error);
        }
        let mut plan = self;
        plan.environment.set(REDUNAR_OVERLAY_TELEMETRY_ENV, telemetry_path);
        Ok(plan)
    }

    /// Adds the private reply socket.
    pub fn with_capture_reply_socket(self, socket_path: &[u8]) -> (result: Self)
        ensures
            result@ == (PlanView {
                environment: self@.environment.insert(
                    REDUNAR_CAPTURE_REPLY_SOCKET_ENV.spec_bytes(),
                    socket_path@,
                ),
                ..self@
            }),
    {
        let mut plan = self;
        plan.environment.set(REDUNAR_CAPTURE_REPLY_SOCKET_ENV, socket_path);
        plan
    }

    pub fn executable(&self) -> (result: &[u8])
        ensures
            result@ == self@.executable,
    {
        self.executable.as_slice()
    }

    pub fn arguments(&self) -> (result: &[Vec<u8>])
        ensures
            text::byte_views(result@) == self@.arguments,
    {
        self.arguments.as_slice()
    }

    pub fn working_directory(&self) -> (result: Option<&[u8]>)
        ensures
            match result {
                Some(directory) => self@.working_directory == Some(directory@),
                None => self@.working_directory is None,
            },
    {
        match &self.working_directory {
            Some(directory) => Some(directory.as_slice()),
            None => None,
        }
    }

    pub fn environment(&self) -> (result: &Environment)
        ensures
            result@ == self@.environment,
    {
        &self.environment
    }

    pub fn existing_vulkan_layers(&self) -> (result: &[Vec<u8>])
        ensures
            text::byte_views(result@) == self@.existing_vulkan_layers,
    {
        self.existing_vulkan_layers.as_slice()
    }
}

/// One character inside a JSON string.
pub open spec fn json_char(character: char) -> Seq<char> {
    if character == '"' {
        seq!['\\', '"']
    } else if character == '\\' {
        seq!['\\', '\\']
    } else if character == '\n' {
        seq!['\\', 'n']
    } else if character == '\r' {
        seq!['\\', 'r']
    } else if character == '\t' {
        seq!['\\', 't']
    } else if text::is_control_code(character) {
        seq!['\\', 'u'] + text::hex_fixed(character as nat, 4)
    } else {
        seq![character]
    }
}

/// A text inside a JSON string.
pub open spec fn json_text(value: Seq<char>) -> Seq<char>
    decreases value.len(),
{
    if value.len() == 0 {
        Seq::empty()
    } else {
        json_text(value.drop_last()) + json_char(value.last())
    }
}

fn push_json_char(escaped: &mut String, character: char)
    ensures
        final(escaped)@ == old(escaped)@ + json_char(character),
{
    if character == '"' || character == '\\' {
        escaped.push('\\');
        escaped.push(character);
    } else if character == '\n' {
        escaped.push('\\');
        escaped.push('n');
    } else if character == '\r' {
        escaped.push('\\');
        escaped.push('r');
    } else if character == '\t' {
        escaped.push('\\');
        escaped.push('t');
    } else if text::is_control(character) {
        escaped.push('\\');
        escaped.push('u');
        let digits = text::string_of(text::hex_chars(character as u64, 4).as_slice());
        escaped.append(digits.as_str());
    } else {
        escaped.push(character);
    }
    assert(escaped@ =~= old(escaped)@ + json_char(character));
}

/// Escapes a text for a JSON string.
pub fn json_escape(value: &str) -> (result: String)
    ensures
        result@ == json_text(value@),
{
    let chars = text::chars_of(value);
    let mut escaped = String::new();
    let mut index: usize = 0;
    assert(value@.take(0) =~= Seq::<char>::empty());
    while index < chars.len()
        invariant
            index <= chars@.len(),
            chars@ == value@,
            escaped@ == json_text(value@.take(index as int)),
        decreases chars@.len() - index,
    {
        push_json_char(&mut escaped, chars[index]);
        assert(value@.take(index + 1).drop_last() =~= value@.take(index as int));
        assert(value@.take(index + 1).last() == value@[index as int]);
        index = index + 1;
    }
    assert(value@.take(index as int) =~= value@);
    escaped
}

pub const MANIFEST_HEAD: &'static str = "{\n  \"file_format_version\": \"1.2.0\",\n  \"layer\": {\n    \"name\": \"VK_LAYER_REDUNAR_capture\",\n    \"type\": \"GLOBAL\",\n    \"library_path\": \"";

pub const MANIFEST_TAIL: &'static str = "\",\n    \"api_version\": \"1.0.0\",\n    \"implementation_version\": \"1\",\n    \"description\": \"Redunar bounded frame presentation telemetry\",\n    \"functions\": {\n      \"vkNegotiateLoaderLayerInterfaceVersion\": \"vkNegotiateLoaderLayerInterfaceVersion\"\n    }\n  }\n}\n";

/// The manifest of the capture layer for one session: what is written into
/// `session_directory` so that it points at `layer_library`, where that is a
/// regular file.
pub fn layer_manifest(session_directory: &[u8], layer_library: &[u8], is_regular_file: bool) -> (result:
    Result<String, CaptureLaunchError>)
    ensures
        match result {
            Ok(manifest) => {
                &&& paths::absolute(session_directory@)
                &&& paths::absolute(layer_library@)
                &&& is_regular_file
                &&& vstd::utf8::valid_utf8(layer_library@)
                &&& manifest@ == MANIFEST_HEAD@ + json_text(
                    vstd::utf8::decode_utf8(layer_library@),
                ) + MANIFEST_TAIL@
            },
            Err(error) => if !paths::absolute(session_directory@) {
                error@ == "capture session directory"@ + " must be an absolute path"@
            } else if !paths::absolute(layer_library@) {
                error@ == "Vulkan capture layer library"@ + " must be an absolute path"@
            } else if !is_regular_file {
                error@ == "Vulkan capture layer path is not a regular file"@
            } else {
                !vstd::utf8::valid_utf8(layer_library@) && error@
                    == "Vulkan capture layer path is not valid UTF-8"@
            },
        },
{
    if let Err(error) = validate_absolute("capture session directory", session_directory) {
        return Err(error);
    }
    if let Err(error) = validate_absolute("Vulkan capture layer library", layer_library) {
        return Err(error);
    }
    if !is_regular_file {
        return Err(CaptureLaunchError::new("Vulkan capture layer path is not a regular file"));
    }
    match text::decode(layer_library) {
        None => Err(CaptureLaunchError::new("Vulkan capture layer path is not valid UTF-8")),
        Some(library) => {
            let mut manifest = MANIFEST_HEAD.to_owned();
            let escaped = json_escape(library.as_str());
            manifest.append(escaped.as_str());
            manifest.append(MANIFEST_TAIL);
            Ok(manifest)
        },
    }
}

proof fn lemma_hex_is_plain(value: nat, width: nat)
    ensures
        forall|i: int|
            0 <= i < text::hex_fixed(value, width).len() ==> !text::is_control_code(
                #[trigger] text::hex_fixed(value, width)[i],
            ) && text::hex_fixed(value, width)[i] != '"',
    decreases width,
{
    if width > 0 {
        lemma_hex_is_plain(value / 16, (width - 1) as nat);
        let before = text::hex_fixed(value / 16, (width - 1) as nat);
        assert forall|i: int| 0 <= i < text::hex_fixed(value, width).len() implies
            !text::is_control_code(#[trigger] text::hex_fixed(value, width)[i])
            && text::hex_fixed(value, width)[i] != '"' by {
            if i < before.len() {
                assert(!text::is_control_code(before[i]) && before[i] != '"');
            }
        }
    }
}

/// Text that is written into a JSON string stays inside it: it holds no
/// control character, and every quote stands behind a backslash.
pub proof fn escaped_text_stays_inside(value: Seq<char>)
    ensures
        forall|i: int| 0 <= i < json_text(value).len() ==> !text::is_control_code(
            #[trigger] json_text(value)[i],
        ),
        forall|i: int| 0 <= i < json_text(value).len() && #[trigger] json_text(value)[i] == '"'
            ==> i > 0 && json_text(value)[i - 1] == '\\',
    decreases value.len(),
{
    if value.len() > 0 {
        escaped_text_stays_inside(value.drop_last());
        let before = json_text(value.drop_last());
        let added = json_char(value.last());
        let all = json_text(value);
        lemma_hex_is_plain(value.last() as nat, 4);
        let code = text::hex_fixed(value.last() as nat, 4);
        assert forall|i: int| 0 <= i < added.len() implies !text::is_control_code(
            #[trigger] added[i],
        ) && (added[i] == '"' ==> i > 0 && added[i - 1] == '\\') by {
            if i >= 2 {
                assert(added[i] == code[i - 2]);
            }
        }
        assert forall|i: int| 0 <= i < all.len() implies !text::is_control_code(
            #[trigger] all[i],
        ) && (all[i] == '"' ==> i > 0 && all[i - 1] == '\\') by {
            if i < before.len() {
                assert(all[i] == before[i]);
                assert(!text::is_control_code(before[i]));
                if i > 0 {
                    assert(all[i - 1] == before[i - 1]);
                }
            } else {
                assert(all[i] == added[i - before.len()]);
                if i > before.len() {
                    assert(all[i - 1] == added[i - 1 - before.len()]);
                }
            }
        }
    }
}

} // verus!
