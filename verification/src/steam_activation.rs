//! The pending activation of a game that Steam starts, and its broker.
use crate::environment::Environment;
use crate::paths;
use crate::steam_launch_bridge;
use crate::steam_launch_bridge::{
    CaptureState, SteamActivationError, SteamAppId, SteamCaptureEnvironment,
    MAX_STEAM_ACTIVATION_TTL, STEAM_BROKER_SOCKET_FILE,
};
use vstd::prelude::*;
use vstd::string::*;

verus! {

broadcast use vstd::string::group_string_axioms;

/// One published activation. Times are nanoseconds on a monotonic clock.
#[derive(Debug)]
pub struct PendingSteamActivation {
    app_id: SteamAppId,
    expected_uid: u32,
    expires_at: u64,
    environment: SteamCaptureEnvironment,
}

/// What a [`PendingSteamActivation`] holds.
#[verifier::ext_equal]
pub ghost struct PendingState {
    pub app_id: u32,
    pub expected_uid: u32,
    pub expires_at: u64,
    pub state: CaptureState,
}

impl View for PendingSteamActivation {
    type V = PendingState;

    closed spec fn view(&self) -> PendingState {
        PendingState {
            app_id: self.app_id@,
            expected_uid: self.expected_uid,
            expires_at: self.expires_at,
            state: self.environment@,
        }
    }
}

/// When an activation that is published for some time expires.
pub open spec fn expiry(created_at: u64, ttl: u64) -> Option<u64> {
    if 0 < ttl <= MAX_STEAM_ACTIVATION_TTL && created_at + ttl <= u64::MAX {
        Some((created_at + ttl) as u64)
    } else {
        None
    }
}

impl PendingSteamActivation {
    /// Publishes an activation for `ttl` nanoseconds.
    pub fn new(
        app_id: SteamAppId,
        expected_uid: u32,
        environment: SteamCaptureEnvironment,
        created_at: u64,
        ttl: u64,
    ) -> (result: Result<Self, SteamActivationError>)
        ensures
            match result {
                Ok(pending) => expiry(created_at, ttl) == Some(pending@.expires_at),
                Err(_) => expiry(created_at, ttl) is None,
            },
            match result {
                Ok(pending) => {
                    &&& 0 < ttl <= MAX_STEAM_ACTIVATION_TTL
                    &&& created_at + ttl <= u64::MAX
                    &&& pending@ == (PendingState {
                        app_id: app_id@,
                        expected_uid,
                        expires_at: (created_at + ttl) as u64,
                        state: environment@,
                    })
                },
                Err(error) => if ttl == 0 || ttl > MAX_STEAM_ACTIVATION_TTL {
                    error@ == "Steam activation TTL must be between 1 nanosecond and 60 seconds"@
                } else {
                    created_at + ttl > u64::MAX && error@
                        == "Steam activation expiry is out of range"@
                },
            },
    {
        if ttl == 0 || ttl > MAX_STEAM_ACTIVATION_TTL {
            return Err(
                SteamActivationError::new(
                    "Steam activation TTL must be between 1 nanosecond and 60 seconds",
                ),
            );
        }
        match created_at.checked_add(ttl) {
            None => Err(SteamActivationError::new("Steam activation expiry is out of range")),
            Some(expires_at) => Ok(
                PendingSteamActivation { app_id, expected_uid, expires_at, environment },
            ),
        }
    }

    pub fn expires_at(&self) -> (result: u64)
        ensures
            result == self@.expires_at,
    {
        self.expires_at
    }
}

/// Observable state of an activation. The time since the claim is the clock
/// of the capture producer's start.
#[derive(Clone, Copy, Debug, PartialEq, Eq, Structural)]
pub enum SteamActivationState {
    Pending,
    Claimed { elapsed: u64 },
    Expired,
}

/// Holds one activation until it is claimed or expires.
#[derive(Debug)]
pub struct PendingActivationStore {
    pending: Option<PendingSteamActivation>,
    claimed_at: Option<u64>,
}

/// What a [`PendingActivationStore`] holds.
#[verifier::ext_equal]
pub ghost struct StoreState {
    pub pending: Option<PendingState>,
    pub claimed_at: Option<u64>,
}

impl View for PendingActivationStore {
    type V = StoreState;

    closed spec fn view(&self) -> StoreState {
        StoreState {
            pending: match self.pending {
                Some(pending) => Some(pending@),
                None => None,
            },
            claimed_at: self.claimed_at,
        }
    }
}

/// A claim at some time: what is handed over, and what stays.
pub open spec fn claimed(
    store: StoreState,
    app_id: u32,
    peer_uid: u32,
    now: u64,
) -> (Option<CaptureState>, StoreState) {
    match store.pending {
        None => (None, store),
        Some(pending) => if now >= pending.expires_at {
            (None, StoreState { pending: None, ..store })
        } else if pending.app_id != app_id || pending.expected_uid != peer_uid {
            (None, store)
        } else {
            (Some(pending.state), StoreState { pending: None, claimed_at: Some(now) })
        },
    }
}

/// What can be observed of a store at some time.
pub open spec fn observed(store: StoreState, now: u64) -> SteamActivationState {
    match store.claimed_at {
        Some(claimed_at) => SteamActivationState::Claimed {
            elapsed: if now >= claimed_at {
                (now - claimed_at) as u64
            } else {
                0
            },
        },
        None => match store.pending {
            Some(pending) => if now < pending.expires_at {
                SteamActivationState::Pending
            } else {
                SteamActivationState::Expired
            },
            None => SteamActivationState::Expired,
        },
    }
}

impl PendingActivationStore {
    pub fn new(pending: PendingSteamActivation) -> (result: Self)
        ensures
            result@ == (StoreState { pending: Some(pending@), claimed_at: None }),
    {
        PendingActivationStore { pending: Some(pending), claimed_at: None }
    }

    /// Hands the activation over to the matching application of the user that
    /// it was published for. Any other claim leaves it in place until it
    /// expires.
    pub fn claim(&mut self, app_id: SteamAppId, peer_uid: u32, now: u64) -> (result: Option<
        SteamCaptureEnvironment,
    >)
        ensures
            ({
                let (state, store) = claimed(old(self)@, app_id@, peer_uid, now);
                &&& final(self)@ == store
                &&& match result {
                    Some(environment) => state == Some(environment@),
                    None => state is None,
                }
            }),
    {
        match self.pending.take() {
            None => None,
            Some(pending) => {
                if now >= pending.expires_at {
                    return None;
                }
                if pending.app_id.get() != app_id.get() || pending.expected_uid != peer_uid {
                    self.pending = Some(pending);
                    return None;
                }
                self.claimed_at = Some(now);
                Some(pending.environment)
            },
        }
    }

    pub fn state(&self, now: u64) -> (result: SteamActivationState)
        ensures
            result == observed(self@, now),
    {
        if let Some(claimed_at) = self.claimed_at {
            return SteamActivationState::Claimed { elapsed: now.saturating_sub(claimed_at) };
        }
        match &self.pending {
            Some(pending) => if now < pending.expires_at {
                SteamActivationState::Pending
            } else {
                SteamActivationState::Expired
            },
            None => SteamActivationState::Expired,
        }
    }
}

/// An activation is handed over at most once: after a claim that succeeds,
/// every later one fails and changes nothing, and the activation is seen as
/// claimed.
pub proof fn claimed_once(
    store: StoreState,
    app_id: u32,
    peer_uid: u32,
    now: u64,
    other_app: u32,
    other_uid: u32,
    later: u64,
)
    ensures
        ({
            let (state, after) = claimed(store, app_id, peer_uid, now);
            state is Some ==> {
                &&& claimed(after, other_app, other_uid, later) == (None::<CaptureState>, after)
                &&& observed(after, later) is Claimed
                &&& observed(after, now) == SteamActivationState::Claimed { elapsed: 0 }
            }
        }),
{
}

/// A claim for another application or by another user changes nothing before
/// the activation expires.
pub proof fn foreign_claim_keeps_activation(
    store: StoreState,
    app_id: u32,
    peer_uid: u32,
    now: u64,
)
    requires
        store.pending matches Some(pending) && now < pending.expires_at && (pending.app_id != app_id
            || pending.expected_uid != peer_uid),
    ensures
        claimed(store, app_id, peer_uid, now) == (None::<CaptureState>, store),
{
}

/// A claim at or after the expiry fails for good, even where a later claim
/// shows an earlier time.
pub proof fn expired_claim_is_final(
    store: StoreState,
    app_id: u32,
    peer_uid: u32,
    now: u64,
    other_app: u32,
    other_uid: u32,
    later: u64,
)
    requires
        store.pending matches Some(pending) && now >= pending.expires_at,
    ensures
        claimed(store, app_id, peer_uid, now).0 is None,
        claimed(claimed(store, app_id, peer_uid, now).1, other_app, other_uid, later).0 is None,
{
}

/// What a broker answers to a request of a process, and what stays.
pub open spec fn answered(
    request: Seq<u8>,
    store: StoreState,
    peer_process_id: i32,
    peer_uid: u32,
    now: u64,
) -> (Result<Seq<u8>, &'static str>, StoreState) {
    match steam_launch_bridge::decoded_request(request) {
        Err(fault) => (Err(fault), store),
        Ok((app_id, process_id)) => if peer_process_id <= 0 || peer_process_id != process_id {
            (Err("Steam wrapper process identity does not match SO_PEERCRED"), store)
        } else {
            let (state, after) = claimed(store, app_id as u32, peer_uid, now);
            match state {
                None => (Ok(steam_launch_bridge::denied_bytes()), after),
                Some(state) => (Ok(steam_launch_bridge::granted_bytes(state)), after),
            }
        },
    }
}

/// Handles a request, given what the system says of the peer.
pub fn handle_request_bytes(
    request: &[u8],
    store: &mut PendingActivationStore,
    peer_process_id: i32,
    peer_uid: u32,
    now: u64,
) -> (result: Result<Vec<u8>, SteamActivationError>)
    ensures
        ({
            let (answer, after) = answered(request@, old(store)@, peer_process_id, peer_uid, now);
            &&& final(store)@ == after
            &&& match result {
                Ok(bytes) => answer == Ok::<Seq<u8>, &'static str>(bytes@),
                Err(error) => answer matches Err(fault) && error@ == fault@,
            }
        }),
{
    let (app_id, claimed_process_id) = match steam_launch_bridge::decode_request(request) {
        Ok(decoded) => decoded,
        Err(error) => {
            return Err(error);
        },
    };
    if peer_process_id <= 0 || peer_process_id as u32 != claimed_process_id {
        return Err(
            SteamActivationError::new("Steam wrapper process identity does not match SO_PEERCRED"),
        );
    }
    match store.claim(app_id, peer_uid, now) {
        None => Ok(steam_launch_bridge::encode_denied()),
        Some(environment) => Ok(steam_launch_bridge::encode_granted(&environment)),
    }
}

/// The bytes that go back for a request: a refusal also where the request is
/// malformed or its sender is not who it says.
pub fn broker_answer(
    request: &[u8],
    store: &mut PendingActivationStore,
    peer_process_id: i32,
    peer_uid: u32,
    now: u64,
) -> (result: Vec<u8>)
    ensures
        ({
            let (answer, after) = answered(request@, old(store)@, peer_process_id, peer_uid, now);
            &&& final(store)@ == after
            &&& result@ == match answer {
                Ok(bytes) => bytes,
                Err(_) => steam_launch_bridge::denied_bytes(),
            }
        }),
{
    match handle_request_bytes(request, store, peer_process_id, peer_uid, now) {
        Ok(bytes) => bytes,
        Err(_) => steam_launch_bridge::encode_denied(),
    }
}

/// A process that claims another's identity is refused, and the activation
/// stays as it was.
pub proof fn foreign_process_is_refused(
    app_id: u32,
    process_id: u32,
    store: StoreState,
    peer_process_id: i32,
    peer_uid: u32,
    now: u64,
)
    requires
        app_id != 0,
        peer_process_id != process_id,
    ensures
        answered(
            steam_launch_bridge::request_bytes(app_id, process_id),
            store,
            peer_process_id,
            peer_uid,
            now,
        ) == (
            Err::<Seq<u8>, &'static str>(
                "Steam wrapper process identity does not match SO_PEERCRED",
            ),
            store,
        ),
{
    steam_launch_bridge::request_round_trip(app_id, process_id);
}

/// The matching process receives the published state, with the two launch
/// wrappers off, and the activation is then claimed.
pub proof fn matching_request_is_granted(
    process_id: u32,
    store: StoreState,
    now: u64,
    rules: steam_launch_bridge::OverlayRules,
)
    requires
        0 < process_id <= i32::MAX,
        store.pending matches Some(pending) && pending.app_id != 0 && now < pending.expires_at
            && pending.state.valid() && rules.allows_opacity(pending.state.overlay.opacity_percent)
            && rules.allows_metrics(pending.state.overlay.metric_bits),
    ensures
        ({
            let pending = store.pending->0;
            let (answer, after) = answered(
                steam_launch_bridge::request_bytes(pending.app_id, process_id),
                store,
                process_id as i32,
                pending.expected_uid,
                now,
            );
            &&& answer matches Ok(bytes) && steam_launch_bridge::decoded_response(bytes, rules)
                == Ok::<Option<CaptureState>, Seq<char>>(
                Some(CaptureState { gamescope: false, gamemode: false, ..pending.state }),
            )
            &&& observed(after, now) == SteamActivationState::Claimed { elapsed: 0 }
        }),
{
    let pending = store.pending->0;
    steam_launch_bridge::request_round_trip(pending.app_id, process_id);
    steam_launch_bridge::granted_round_trip(pending.state, rules);
}

/// The fixed place of the broker socket below a user's runtime directory.
pub open spec fn broker_socket(runtime_directory: Seq<u8>) -> Seq<u8> {
    paths::joined(
        paths::joined(runtime_directory, "redunar".spec_bytes()),
        STEAM_BROKER_SOCKET_FILE.spec_bytes(),
    )
}

pub fn steam_broker_socket_path(xdg_runtime_directory: &[u8]) -> (result: Vec<u8>)
    ensures
        result@ == broker_socket(xdg_runtime_directory@),
{
    let directory = paths::join(xdg_runtime_directory, "redunar".as_bytes());
    paths::join(directory.as_slice(), STEAM_BROKER_SOCKET_FILE.as_bytes())
}

/// The directory of an activation socket.
pub fn socket_parent(socket_path: &[u8]) -> (result: Result<Vec<u8>, SteamActivationError>)
    ensures
        match result {
            Ok(directory) => paths::absolute(socket_path@) && paths::parent_of(socket_path@) == Some(
                directory@,
            ),
            Err(error) => if !paths::absolute(socket_path@) {
                error@ == "Steam activation socket must be absolute"@
            } else {
                paths::parent_of(socket_path@) is None && error@
                    == "Steam activation socket has no parent directory"@
            },
        },
{
    if !paths::is_absolute(socket_path) {
        return Err(SteamActivationError::new("Steam activation socket must be absolute"));
    }
    match paths::parent(socket_path) {
        Some(directory) => Ok(directory),
        None => Err(SteamActivationError::new("Steam activation socket has no parent directory")),
    }
}

/// Accepts a real directory of the current user.
pub fn check_socket_directory(
    is_symlink: bool,
    is_directory: bool,
    owner_uid: u32,
    current_uid: u32,
) -> (result: Result<(), SteamActivationError>)
    ensures
        match result {
            Ok(()) => !is_symlink && is_directory && owner_uid == current_uid,
            Err(error) => if is_symlink || !is_directory {
                error@ == "Steam activation directory is not a real directory"@
            } else {
                owner_uid != current_uid && error@
                    == "Steam activation directory belongs to another user"@
            },
        },
{
    if is_symlink || !is_directory {
        return Err(SteamActivationError::new("Steam activation directory is not a real directory"));
    }
    if owner_uid != current_uid {
        return Err(
            SteamActivationError::new("Steam activation directory belongs to another user"),
        );
    }
    Ok(())
}

/// What stands where a broker wants its socket.
#[derive(Clone, Copy, Debug, PartialEq, Eq, Structural)]
pub enum SocketPlace {
    Absent,
    /// Something that is not a socket.
    Foreign,
    /// A socket that accepts connections.
    Live,
    /// A socket of a process that is gone.
    Dead,
}

/// What a broker does before it binds.
#[derive(Clone, Copy, Debug, PartialEq, Eq, Structural)]
pub enum SocketStep {
    Bind,
    /// Remove the dead socket, then look again.
    Remove,
}

/// Decides how to come by the socket's place. `removed` says that a dead
/// socket was there and its removal was tried.
pub fn socket_step(place: SocketPlace, removed: bool) -> (result: Result<
    SocketStep,
    SteamActivationError,
>)
    ensures
        match result {
            Ok(SocketStep::Bind) => place is Absent,
            Ok(SocketStep::Remove) => place is Dead && !removed,
            Err(error) => if removed {
                place !is Absent && error@ == "Steam activation socket already exists"@
            } else {
                ||| place is Foreign && error@ == "Steam activation socket path is not a socket"@
                ||| place is Live && error@ == "Steam activation socket already exists"@
            },
        },
{
    match place {
        SocketPlace::Absent => Ok(SocketStep::Bind),
        SocketPlace::Foreign => if removed {
            Err(SteamActivationError::new("Steam activation socket already exists"))
        } else {
            Err(SteamActivationError::new("Steam activation socket path is not a socket"))
        },
        SocketPlace::Live => Err(
            SteamActivationError::new("Steam activation socket already exists"),
        ),
        SocketPlace::Dead => if removed {
            Err(SteamActivationError::new("Steam activation socket already exists"))
        } else {
            Ok(SocketStep::Remove)
        },
    }
}

/// Whether a bound socket is secured for its owner.
pub fn check_socket_owner(owner_uid: u32, current_uid: u32) -> (result: Result<
    (),
    SteamActivationError,
>)
    ensures
        match result {
            Ok(()) => owner_uid == current_uid,
            Err(error) => owner_uid != current_uid && error@
                == "could not secure private Steam activation socket: Steam activation socket has an unexpected owner"@,
        },
{
    if owner_uid != current_uid {
        return Err(
            SteamActivationError::new(
                "could not secure private Steam activation socket: Steam activation socket has an unexpected owner",
            ),
        );
    }
    Ok(())
}

/// What came of waiting for a connection.
#[derive(Clone, Copy, Debug, PartialEq, Eq, Structural)]
pub enum AcceptOutcome {
    Connected,
    Interrupted,
    WouldBlock,
    Failed,
}

/// What a broker does next.
#[derive(Clone, Copy, Debug, PartialEq, Eq, Structural)]
pub enum BrokerAction {
    Answer,
    Retry,
    Wait,
    Stop,
}

/// Whether a broker goes on waiting for connections.
pub fn broker_goes_on(stopped: bool, now: u64, expires_at: u64) -> (result: bool)
    ensures
        result == (!stopped && now < expires_at),
{
    !stopped && now < expires_at
}

/// What a broker does about the outcome of a wait.
pub fn broker_action(outcome: AcceptOutcome, stopped: bool) -> (result: BrokerAction)
    ensures
        result == match outcome {
            AcceptOutcome::Interrupted => BrokerAction::Retry,
            AcceptOutcome::WouldBlock => BrokerAction::Wait,
            AcceptOutcome::Failed => BrokerAction::Stop,
            AcceptOutcome::Connected => if stopped {
                BrokerAction::Stop
            } else {
                BrokerAction::Answer
            },
        },
{
    match outcome {
        AcceptOutcome::Interrupted => BrokerAction::Retry,
        AcceptOutcome::WouldBlock => BrokerAction::Wait,
        AcceptOutcome::Failed => BrokerAction::Stop,
        AcceptOutcome::Connected => if stopped {
            BrokerAction::Stop
        } else {
            BrokerAction::Answer
        },
    }
}

/// Accepts a message within its bound.
pub fn check_message_length(length: usize, maximum: usize) -> (result: Result<
    (),
    SteamActivationError,
>)
    ensures
        match result {
            Ok(()) => length <= maximum,
            Err(error) => length > maximum && error@
                == "Steam activation message exceeds its bound"@,
        },
{
    if length > maximum {
        return Err(SteamActivationError::new("Steam activation message exceeds its bound"));
    }
    Ok(())
}

/// What a wrapper reports about its activation.
#[derive(Clone, Debug, PartialEq, Eq)]
pub enum WrapperNotice {
    Denied,
    Claimed,
    Unavailable(SteamActivationError),
}

/// The updates that passed every gate, given what the broker handed over. No
/// updates mean that the original command runs unchanged.
pub fn wrapper_updates(
    activation: Result<Option<SteamCaptureEnvironment>, SteamActivationError>,
    protocol: u16,
    inherited: &Environment,
) -> (result: (Environment, WrapperNotice))
    ensures
        ({
            let none = Map::<Seq<u8>, Seq<u8>>::empty();
            match activation {
                Err(error) => result.0@ == none && (result.1 matches WrapperNotice::Unavailable(
                    reported,
                ) && reported@ == error@),
                Ok(None) => result.0@ == none && result.1 is Denied,
                Ok(Some(environment)) => match steam_launch_bridge::merge_fault(
                    environment@,
                    inherited@,
                ) {
                    Some(fault) => result.0@ == none && (
                    result.1 matches WrapperNotice::Unavailable(reported) && reported@ == fault),
                    None => result.0@ == steam_launch_bridge::merged_variables(
                        environment@,
                        protocol,
                        inherited@,
                    ) && result.1 is Claimed,
                },
            }
        }),
{
    match activation {
        Err(error) => (Environment::new(), WrapperNotice::Unavailable(error)),
        Ok(None) => (Environment::new(), WrapperNotice::Denied),
        Ok(Some(environment)) => match environment.environment_updates(protocol, inherited) {
            Ok(updates) => (updates, WrapperNotice::Claimed),
            Err(error) => (Environment::new(), WrapperNotice::Unavailable(error)),
        },
    }
}

/// An activation waits until it expires, five minutes at most. Once claimed it
/// tells how long ago that was.
pub proof fn activations_wait_five_minutes_at_most(
    pending: PendingState,
    claimed_at: u64,
    now: u64,
)
    ensures
        observed(StoreState { pending: Some(pending), claimed_at: None }, now)
            == SteamActivationState::Pending <==> now < pending.expires_at,
        observed(StoreState { pending: Some(pending), claimed_at: None }, now)
            == SteamActivationState::Expired <==> now >= pending.expires_at,
        observed(StoreState { pending: None, claimed_at: None }, now)
            == SteamActivationState::Expired,
        now >= claimed_at ==> observed(StoreState { pending: None, claimed_at: Some(claimed_at) }, now)
            == (SteamActivationState::Claimed { elapsed: (now - claimed_at) as u64 }),
        MAX_STEAM_ACTIVATION_TTL == 5 * 60 * 1_000_000_000,
{
}

/// An activation is handed to the app and the user that it is for, and to no
/// other.
pub proof fn activations_go_to_their_app(
    pending: PendingState,
    app_id: u32,
    peer_uid: u32,
    now: u64,
)
    ensures
        claimed(StoreState { pending: Some(pending), claimed_at: None }, app_id, peer_uid, now).0
            is Some <==> now < pending.expires_at && app_id == pending.app_id && peer_uid
            == pending.expected_uid,
{
}

/// The broker listens below the user's runtime directory.
pub proof fn the_broker_listens_in_the_runtime_directory(directory: Seq<u8>)
    ensures
        broker_socket(directory) == paths::joined(
            paths::joined(directory, "redunar".spec_bytes()),
            "steam-launch-v1.sock".spec_bytes(),
        ),
{
}

/// An activation expires as long after it was published as was asked for, up to
/// five minutes.
pub proof fn activations_expire_when_asked(created_at: u64, ttl: u64)
    requires
        created_at + ttl <= u64::MAX,
    ensures
        0 < ttl <= 300 * 1_000_000_000 ==> (expiry(created_at, ttl) matches Some(at) && at
            - created_at == ttl),
        ttl == 0 || ttl > 300 * 1_000_000_000 ==> expiry(created_at, ttl) is None,
{
}

} // verus!
