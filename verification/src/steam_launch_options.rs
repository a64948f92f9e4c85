//! Read-only inspection of the launch options that Steam has stored.
use crate::path_map::PathMap;
use crate::paths;
use crate::steam_discovery;
use crate::steam_launch_bridge::SteamAppId;
use crate::text;
use crate::vdf;
use crate::vdf::{VdfNode, VdfObject, VdfReadError};
use vstd::prelude::*;
use vstd::string::*;

verus! {

broadcast use vstd::string::group_string_axioms;

pub const MAX_USERDATA_ENTRIES: usize = 512;

pub const MAX_USER_ACCOUNTS: usize = 64;

pub const MAX_PROC_ENTRIES: usize = 32_768;

pub const MAX_PROCESS_NAME_BYTES: usize = 64;

pub const MAX_EXPECTED_LAUNCH_OPTIONS_BYTES: usize = 4096;

/// How the stored launch options compare with the wrapper's exact value.
#[derive(Clone, Copy, Debug, PartialEq, Eq, Structural)]
pub enum SteamLaunchOptionsStatus {
    Configured,
    NotConfigured,
    Ambiguous(SteamLaunchOptionsReason),
    Unavailable(SteamLaunchOptionsReason),
}

/// A stable reason. Its text names neither accounts nor private paths.
#[derive(Clone, Copy, Debug, PartialEq, Eq, Structural)]
pub enum SteamLaunchOptionsReason {
    HomeDirectoryUnavailable,
    NativeSteamNotFound,
    SteamDataUnsafe,
    SteamDataUnreadable,
    ConfigurationUnsafe,
    ConfigurationTooLarge,
    ConfigurationMalformed,
    ConfigurationUnreadable,
    DuplicateConfigurationEntries,
    MultipleAccountsDisagree,
    SteamRunning,
    ProcessStateUnavailable,
    ScanLimitExceeded,
    ExpectedValueInvalid,
}

pub open spec fn reason_text(reason: SteamLaunchOptionsReason) -> &'static str {
    match reason {
        SteamLaunchOptionsReason::HomeDirectoryUnavailable => "The local home directory is unavailable for Steam setup detection",
        SteamLaunchOptionsReason::NativeSteamNotFound => "A native Steam installation was not found",
        SteamLaunchOptionsReason::SteamDataUnsafe => "Steam's local user-data layout contains an unsafe link or file type",
        SteamLaunchOptionsReason::SteamDataUnreadable => "Steam's local user data could not be read safely",
        SteamLaunchOptionsReason::ConfigurationUnsafe => "A Steam configuration file is linked or changed while it is being inspected",
        SteamLaunchOptionsReason::ConfigurationTooLarge => "A Steam configuration file exceeds Redunar's inspection limit",
        SteamLaunchOptionsReason::ConfigurationMalformed => "A Steam configuration file is malformed or is not valid UTF-8",
        SteamLaunchOptionsReason::ConfigurationUnreadable => "A Steam configuration file could not be read",
        SteamLaunchOptionsReason::DuplicateConfigurationEntries => "Steam contains duplicate app or Launch Options entries",
        SteamLaunchOptionsReason::MultipleAccountsDisagree => "Steam user accounts do not agree on this game's Launch Options",
        SteamLaunchOptionsReason::SteamRunning => "Steam is running, so its in-memory Launch Options may differ from the saved file",
        SteamLaunchOptionsReason::ProcessStateUnavailable => "Redunar could not determine whether Steam is currently running",
        SteamLaunchOptionsReason::ScanLimitExceeded => "Steam's local data exceeds Redunar's inspection limits",
        SteamLaunchOptionsReason::ExpectedValueInvalid => "Redunar's expected Steam Launch Options value is invalid",
    }
}

impl SteamLaunchOptionsReason {
    /// The user-facing sentence.
    pub fn message(self) -> (result: &'static str)
        ensures
            result == reason_text(self),
    {
        match self {
            SteamLaunchOptionsReason::HomeDirectoryUnavailable => "The local home directory is unavailable for Steam setup detection",
            SteamLaunchOptionsReason::NativeSteamNotFound => "A native Steam installation was not found",
            SteamLaunchOptionsReason::SteamDataUnsafe => "Steam's local user-data layout contains an unsafe link or file type",
            SteamLaunchOptionsReason::SteamDataUnreadable => "Steam's local user data could not be read safely",
            SteamLaunchOptionsReason::ConfigurationUnsafe => "A Steam configuration file is linked or changed while it is being inspected",
            SteamLaunchOptionsReason::ConfigurationTooLarge => "A Steam configuration file exceeds Redunar's inspection limit",
            SteamLaunchOptionsReason::ConfigurationMalformed => "A Steam configuration file is malformed or is not valid UTF-8",
            SteamLaunchOptionsReason::ConfigurationUnreadable => "A Steam configuration file could not be read",
            SteamLaunchOptionsReason::DuplicateConfigurationEntries => "Steam contains duplicate app or Launch Options entries",
            SteamLaunchOptionsReason::MultipleAccountsDisagree => "Steam user accounts do not agree on this game's Launch Options",
            SteamLaunchOptionsReason::SteamRunning => "Steam is running, so its in-memory Launch Options may differ from the saved file",
            SteamLaunchOptionsReason::ProcessStateUnavailable => "Redunar could not determine whether Steam is currently running",
            SteamLaunchOptionsReason::ScanLimitExceeded => "Steam's local data exceeds Redunar's inspection limits",
            SteamLaunchOptionsReason::ExpectedValueInvalid => "Redunar's expected Steam Launch Options value is invalid",
        }
    }
}

impl SteamLaunchOptionsStatus {
    pub fn is_configured(&self) -> (result: bool)
        ensures
            result == (self is Configured),
    {
        match self {
            SteamLaunchOptionsStatus::Configured => true,
            _ => false,
        }
    }

    /// The user-facing sentence.
    pub fn message(&self) -> (result: String)
        ensures
            result@ == match *self {
                SteamLaunchOptionsStatus::Configured => "Configured"@,
                SteamLaunchOptionsStatus::NotConfigured => "Not configured"@,
                SteamLaunchOptionsStatus::Ambiguous(reason) => "Needs attention: "@ + reason_text(
                    reason,
                )@,
                SteamLaunchOptionsStatus::Unavailable(reason) => "Unavailable: "@ + reason_text(
                    reason,
                )@,
            },
    {
        match self {
            SteamLaunchOptionsStatus::Configured => "Configured".to_owned(),
            SteamLaunchOptionsStatus::NotConfigured => "Not configured".to_owned(),
            SteamLaunchOptionsStatus::Ambiguous(reason) => {
                let mut message = "Needs attention: ".to_owned();
                message.append(reason.message());
                message
            },
            SteamLaunchOptionsStatus::Unavailable(reason) => {
                let mut message = "Unavailable: ".to_owned();
                message.append(reason.message());
                message
            },
        }
    }
}

/// Whether Steam is seen to run.
#[derive(Clone, Copy, Debug, PartialEq, Eq, Structural)]
pub enum SteamProcessState {
    Running,
    Stopped,
}

/// What one account has stored.
#[derive(Clone, Copy, Debug, PartialEq, Eq, Structural)]
pub enum AccountLaunchOptions {
    Configured,
    NotConfigured,
    Ambiguous,
}

/// Whether a value can be looked for.
pub open spec fn is_expected(expected: Seq<char>) -> bool {
    &&& expected.len() > 0
    &&& vstd::utf8::encode_utf8(expected).len() <= MAX_EXPECTED_LAUNCH_OPTIONS_BYTES
    &&& !text::has_control(expected)
}

fn check_expected(expected: &str) -> (result: bool)
    ensures
        result == is_expected(expected@),
{
    let chars = text::chars_of(expected);
    chars.len() > 0 && expected.as_bytes().len() <= MAX_EXPECTED_LAUNCH_OPTIONS_BYTES
        && !text::contains_control(chars.as_slice())
}

/// What is stored, seen with whether Steam runs. Steam may keep other options
/// in memory, so that only a stored exact match counts while it runs.
pub open spec fn combined(
    stored: SteamLaunchOptionsStatus,
    process: Result<SteamProcessState, SteamLaunchOptionsReason>,
) -> SteamLaunchOptionsStatus {
    match process {
        Err(reason) => SteamLaunchOptionsStatus::Unavailable(reason),
        Ok(SteamProcessState::Stopped) => stored,
        Ok(SteamProcessState::Running) => if stored is Configured {
            SteamLaunchOptionsStatus::Configured
        } else {
            SteamLaunchOptionsStatus::Ambiguous(SteamLaunchOptionsReason::SteamRunning)
        },
    }
}

/// What the accounts have stored together. The first account that is
/// ambiguous or cannot be read decides alone.
pub open spec fn persisted(
    accounts: Seq<Result<AccountLaunchOptions, SteamLaunchOptionsReason>>,
    some_configured: bool,
    some_not: bool,
) -> Result<SteamLaunchOptionsStatus, SteamLaunchOptionsReason>
    decreases accounts.len(),
{
    if accounts.len() == 0 {
        if !some_configured {
            Ok(SteamLaunchOptionsStatus::NotConfigured)
        } else if !some_not {
            Ok(SteamLaunchOptionsStatus::Configured)
        } else {
            Ok(
                SteamLaunchOptionsStatus::Ambiguous(
                    SteamLaunchOptionsReason::MultipleAccountsDisagree,
                ),
            )
        }
    } else {
        match accounts[0] {
            Err(reason) => Err(reason),
            Ok(AccountLaunchOptions::Ambiguous) => Ok(
                SteamLaunchOptionsStatus::Ambiguous(
                    SteamLaunchOptionsReason::DuplicateConfigurationEntries,
                ),
            ),
            Ok(AccountLaunchOptions::Configured) => persisted(accounts.skip(1), true, some_not),
            Ok(AccountLaunchOptions::NotConfigured) => persisted(
                accounts.skip(1),
                some_configured,
                true,
            ),
        }
    }
}

/// What is stored, given the number of Steam installations and what each
/// account gave, in order.
pub open spec fn stored_status(
    roots: nat,
    accounts: Seq<Result<AccountLaunchOptions, SteamLaunchOptionsReason>>,
) -> Result<SteamLaunchOptionsStatus, SteamLaunchOptionsReason> {
    if roots == 0 {
        Err(SteamLaunchOptionsReason::NativeSteamNotFound)
    } else {
        persisted(accounts, false, false)
    }
}

pub fn persisted_status(
    roots: usize,
    accounts: &[Result<AccountLaunchOptions, SteamLaunchOptionsReason>],
) -> (result: Result<SteamLaunchOptionsStatus, SteamLaunchOptionsReason>)
    ensures
        result == stored_status(roots as nat, accounts@),
{
    if roots == 0 {
        return Err(SteamLaunchOptionsReason::NativeSteamNotFound);
    }
    let mut some_configured = false;
    let mut some_not = false;
    let mut index: usize = 0;
    assert(accounts@.skip(0) =~= accounts@);
    while index < accounts.len()
        invariant
            index <= accounts@.len(),
            roots != 0,
            persisted(accounts@, false, false) == persisted(
                accounts@.skip(index as int),
                some_configured,
                some_not,
            ),
        decreases accounts@.len() - index,
    {
        assert(accounts@.skip(index as int)[0] == accounts@[index as int]);
        assert(accounts@.skip(index as int).skip(1) =~= accounts@.skip(index + 1));
        match accounts[index] {
            Err(reason) => {
                return Err(reason);
            },
            Ok(AccountLaunchOptions::Ambiguous) => {
                return Ok(
                    SteamLaunchOptionsStatus::Ambiguous(
                        SteamLaunchOptionsReason::DuplicateConfigurationEntries,
                    ),
                );
            },
            Ok(AccountLaunchOptions::Configured) => {
                some_configured = true;
            },
            Ok(AccountLaunchOptions::NotConfigured) => {
                some_not = true;
            },
        }
        index = index + 1;
    }
    if !some_configured {
        Ok(SteamLaunchOptionsStatus::NotConfigured)
    } else if !some_not {
        Ok(SteamLaunchOptionsStatus::Configured)
    } else {
        Ok(
            SteamLaunchOptionsStatus::Ambiguous(
                SteamLaunchOptionsReason::MultipleAccountsDisagree,
            ),
        )
    }
}

/// The status of an expected value.
pub open spec fn overall(
    expected: Seq<char>,
    stored: Result<SteamLaunchOptionsStatus, SteamLaunchOptionsReason>,
    process: Result<SteamProcessState, SteamLaunchOptionsReason>,
) -> SteamLaunchOptionsStatus {
    if !is_expected(expected) {
        SteamLaunchOptionsStatus::Unavailable(SteamLaunchOptionsReason::ExpectedValueInvalid)
    } else {
        match stored {
            Err(reason) => SteamLaunchOptionsStatus::Unavailable(reason),
            Ok(stored) => combined(stored, process),
        }
    }
}

/// Where launch options are looked for.
#[derive(Clone, Debug, PartialEq, Eq)]
pub struct SteamLaunchOptionsDetector {
    pub home_directory: Vec<u8>,
    pub proc_root: Vec<u8>,
}

impl SteamLaunchOptionsDetector {
    pub fn new(home_directory: Vec<u8>) -> (result: Self)
        ensures
            result.home_directory@ == home_directory@,
            result.proc_root@ == "/proc".spec_bytes(),
    {
        let proc_root = vstd::slice::slice_to_vec("/proc".as_bytes());
        SteamLaunchOptionsDetector { home_directory, proc_root }
    }

    /// Where Steam may be installed, in order.
    pub fn candidate_roots(&self) -> (result: Result<Vec<Vec<u8>>, SteamLaunchOptionsReason>)
        ensures
            match result {
                Ok(roots) => paths::absolute(self.home_directory@) && text::byte_views(roots@)
                    == seq![
                    paths::joined(self.home_directory@, ".local/share/Steam".spec_bytes()),
                    paths::joined(self.home_directory@, ".steam/steam".spec_bytes()),
                ],
                Err(reason) => !paths::absolute(self.home_directory@) && reason
                    == SteamLaunchOptionsReason::HomeDirectoryUnavailable,
            },
    {
        let home = self.home_directory.as_slice();
        if !paths::is_absolute(home) {
            return Err(SteamLaunchOptionsReason::HomeDirectoryUnavailable);
        }
        let mut roots: Vec<Vec<u8>> = Vec::new();
        roots.push(paths::join(home, ".local/share/Steam".as_bytes()));
        roots.push(paths::join(home, ".steam/steam".as_bytes()));
        assert(text::byte_views(roots@) =~= seq![
            paths::joined(self.home_directory@, ".local/share/Steam".spec_bytes()),
            paths::joined(self.home_directory@, ".steam/steam".spec_bytes()),
        ]);
        Ok(roots)
    }

    /// Decides the status of an expected value, from what is stored and from
    /// whether Steam runs.
    pub fn status(
        &self,
        expected: &str,
        stored: Result<SteamLaunchOptionsStatus, SteamLaunchOptionsReason>,
        process: Result<SteamProcessState, SteamLaunchOptionsReason>,
    ) -> (result: SteamLaunchOptionsStatus)
        ensures
            result == overall(expected@, stored, process),
    {
        if !check_expected(expected) {
            return SteamLaunchOptionsStatus::Unavailable(
                SteamLaunchOptionsReason::ExpectedValueInvalid,
            );
        }
        match stored {
            Err(reason) => SteamLaunchOptionsStatus::Unavailable(reason),
            Ok(stored) => match process {
                Err(reason) => SteamLaunchOptionsStatus::Unavailable(reason),
                Ok(SteamProcessState::Stopped) => stored,
                Ok(SteamProcessState::Running) => match stored {
                    SteamLaunchOptionsStatus::Configured => SteamLaunchOptionsStatus::Configured,
                    _ => SteamLaunchOptionsStatus::Ambiguous(
                        SteamLaunchOptionsReason::SteamRunning,
                    ),
                },
            },
        }
    }
}

/// Only where every account has the exact value, and there is an account,
/// does the status come out as configured.
pub proof fn configured_means_every_account(
    expected: Seq<char>,
    roots: nat,
    accounts: Seq<Result<AccountLaunchOptions, SteamLaunchOptionsReason>>,
    process: Result<SteamProcessState, SteamLaunchOptionsReason>,
)
    ensures
        overall(expected, stored_status(roots, accounts), process) is Configured <==> {
            &&& is_expected(expected)
            &&& roots > 0
            &&& process is Ok
            &&& accounts.len() > 0
            &&& forall|i: int|
                0 <= i < accounts.len() ==> #[trigger] accounts[i] == Ok::<
                    AccountLaunchOptions,
                    SteamLaunchOptionsReason,
                >(AccountLaunchOptions::Configured)
        },
{
    lemma_persisted_configured(accounts, false, false);
}

proof fn lemma_persisted_configured(
    accounts: Seq<Result<AccountLaunchOptions, SteamLaunchOptionsReason>>,
    some_configured: bool,
    some_not: bool,
)
    ensures
        persisted(accounts, some_configured, some_not) == Ok::<
            SteamLaunchOptionsStatus,
            SteamLaunchOptionsReason,
        >(SteamLaunchOptionsStatus::Configured) <==> {
            &&& !some_not
            &&& some_configured || accounts.len() > 0
            &&& forall|i: int|
                0 <= i < accounts.len() ==> #[trigger] accounts[i] == Ok::<
                    AccountLaunchOptions,
                    SteamLaunchOptionsReason,
                >(AccountLaunchOptions::Configured)
        },
    decreases accounts.len(),
{
    if accounts.len() > 0 {
        let rest = accounts.skip(1);
        match accounts[0] {
            Ok(AccountLaunchOptions::Configured) => {
                lemma_persisted_configured(rest, true, some_not);
                assert forall|i: int|
                    (forall|k: int|
                        0 <= k < rest.len() ==> #[trigger] rest[k] == Ok::<
                            AccountLaunchOptions,
                            SteamLaunchOptionsReason,
                        >(AccountLaunchOptions::Configured)) && 0 <= i
                        < accounts.len() implies #[trigger] accounts[i] == Ok::<
                    AccountLaunchOptions,
                    SteamLaunchOptionsReason,
                >(AccountLaunchOptions::Configured) by {
                    if i > 0 {
                        assert(rest[i - 1] == accounts[i]);
                    }
                }
                assert forall|k: int| 0 <= k < rest.len() implies #[trigger] rest[k] == accounts[k
                    + 1] by {}
            },
            Ok(AccountLaunchOptions::NotConfigured) => {
                lemma_persisted_configured(rest, some_configured, true);
            },
            _ => {},
        }
    }
}

/// The launch options of an application. Names that occur twice on the way
/// are ambiguous.
pub open spec fn options_value(entries: Seq<(Seq<char>, VdfNode)>, app_id: u32) -> Result<
    Option<Seq<char>>,
    (),
> {
    match options_apps(entries) {
        Err(()) => Err(()),
        Ok(None) => Ok(None),
        Ok(Some(apps)) => match vdf::sole_object(
            vdf::values_named(apps, text::decimal(app_id as nat), true),
        ) {
            Err(()) => Err(()),
            Ok(None) => Ok(None),
            Ok(Some(app)) => vdf::sole_text(vdf::values_named(app, "LaunchOptions"@, false)),
        },
    }
}

/// The object under one name.
pub open spec fn child(
    parent: Result<Option<Seq<(Seq<char>, VdfNode)>>, ()>,
    name: Seq<char>,
) -> Result<Option<Seq<(Seq<char>, VdfNode)>>, ()> {
    match parent {
        Err(()) => Err(()),
        Ok(None) => Ok(None),
        Ok(Some(entries)) => vdf::sole_object(vdf::values_named(entries, name, false)),
    }
}

/// The applications of a user's configuration.
pub open spec fn options_apps(entries: Seq<(Seq<char>, VdfNode)>) -> Result<
    Option<Seq<(Seq<char>, VdfNode)>>,
    (),
> {
    let store = child(Ok(Some(entries)), "UserLocalConfigStore"@);
    let software = child(store, "Software"@);
    let valve = child(software, "Valve"@);
    let steam = child(valve, "Steam"@);
    child(steam, "apps"@)
}

/// Reads the launch options of an application.
pub fn launch_options_value(document: &VdfObject, app_id: SteamAppId) -> (result: Result<
    Option<&str>,
    (),
>)
    ensures
        match result {
            Ok(Some(value)) => options_value(document@, app_id@) == Ok::<Option<Seq<char>>, ()>(
                Some(value@),
            ),
            Ok(None) => options_value(document@, app_id@) == Ok::<Option<Seq<char>>, ()>(None),
            Err(()) => options_value(document@, app_id@) is Err,
        },
{
    let store = match document.unique_object("UserLocalConfigStore") {
        Err(()) => {
            return Err(());
        },
        Ok(None) => {
            return Ok(None);
        },
        Ok(Some(object)) => object,
    };
    let software = match store.unique_object("Software") {
        Err(()) => {
            return Err(());
        },
        Ok(None) => {
            return Ok(None);
        },
        Ok(Some(object)) => object,
    };
    let valve = match software.unique_object("Valve") {
        Err(()) => {
            return Err(());
        },
        Ok(None) => {
            return Ok(None);
        },
        Ok(Some(object)) => object,
    };
    let steam = match valve.unique_object("Steam") {
        Err(()) => {
            return Err(());
        },
        Ok(None) => {
            return Ok(None);
        },
        Ok(Some(object)) => object,
    };
    let apps = match steam.unique_object("apps") {
        Err(()) => {
            return Err(());
        },
        Ok(None) => {
            return Ok(None);
        },
        Ok(Some(object)) => object,
    };
    let key = text::string_of(text::decimal_chars(app_id.get() as u64).as_slice());
    let app = match apps.unique_exact_object(key.as_str()) {
        Err(()) => {
            return Err(());
        },
        Ok(None) => {
            return Ok(None);
        },
        Ok(Some(object)) => object,
    };
    app.unique_text("LaunchOptions")
}

/// Which reason a document that cannot be read gives.
pub fn vdf_reason(error: VdfReadError) -> (result: SteamLaunchOptionsReason)
    ensures
        result == read_reason(error),
{
    match error {
        VdfReadError::UnsafeFile => SteamLaunchOptionsReason::ConfigurationUnsafe,
        VdfReadError::ChangedDuringOpen => SteamLaunchOptionsReason::ConfigurationUnsafe,
        VdfReadError::Oversized => SteamLaunchOptionsReason::ConfigurationTooLarge,
        VdfReadError::InvalidUtf8 => SteamLaunchOptionsReason::ConfigurationMalformed,
        VdfReadError::Malformed => SteamLaunchOptionsReason::ConfigurationMalformed,
        VdfReadError::Inspect => SteamLaunchOptionsReason::ConfigurationUnreadable,
        VdfReadError::Open => SteamLaunchOptionsReason::ConfigurationUnreadable,
        VdfReadError::Read => SteamLaunchOptionsReason::ConfigurationUnreadable,
    }
}

pub open spec fn read_reason(error: VdfReadError) -> SteamLaunchOptionsReason {
    match error {
        VdfReadError::UnsafeFile => SteamLaunchOptionsReason::ConfigurationUnsafe,
        VdfReadError::ChangedDuringOpen => SteamLaunchOptionsReason::ConfigurationUnsafe,
        VdfReadError::Oversized => SteamLaunchOptionsReason::ConfigurationTooLarge,
        VdfReadError::InvalidUtf8 => SteamLaunchOptionsReason::ConfigurationMalformed,
        VdfReadError::Malformed => SteamLaunchOptionsReason::ConfigurationMalformed,
        VdfReadError::Inspect => SteamLaunchOptionsReason::ConfigurationUnreadable,
        VdfReadError::Open => SteamLaunchOptionsReason::ConfigurationUnreadable,
        VdfReadError::Read => SteamLaunchOptionsReason::ConfigurationUnreadable,
    }
}

/// What one account has stored. A configuration that is absent holds nothing.
pub fn account_has_exact_launch_options(
    document: Result<Option<VdfObject>, VdfReadError>,
    app_id: SteamAppId,
    expected: &str,
) -> (result: Result<AccountLaunchOptions, SteamLaunchOptionsReason>)
    ensures
        result == match document {
            Err(error) => Err(read_reason(error)),
            Ok(None) => Ok(AccountLaunchOptions::NotConfigured),
            Ok(Some(object)) => Ok(
                match options_value(object@, app_id@) {
                    Err(()) => AccountLaunchOptions::Ambiguous,
                    Ok(value) => if value == Some(expected@) {
                        AccountLaunchOptions::Configured
                    } else {
                        AccountLaunchOptions::NotConfigured
                    },
                },
            ),
        },
{
    match document {
        Err(error) => Err(vdf_reason(error)),
        Ok(None) => Ok(AccountLaunchOptions::NotConfigured),
        Ok(Some(object)) => match launch_options_value(&object, app_id) {
            Err(()) => Ok(AccountLaunchOptions::Ambiguous),
            Ok(None) => Ok(AccountLaunchOptions::NotConfigured),
            Ok(Some(value)) => if text::same_text(value, expected) {
                Ok(AccountLaunchOptions::Configured)
            } else {
                Ok(AccountLaunchOptions::NotConfigured)
            },
        },
    }
}

/// Whether a text is a nonempty run of ASCII digits.
fn is_all_digits(chars: &[char]) -> (result: bool)
    ensures
        result == text::all_digits(chars@),
{
    let mut index: usize = 0;
    while index < chars.len()
        invariant
            index <= chars@.len(),
            forall|i: int| 0 <= i < index ==> text::is_digit(#[trigger] chars@[i]),
        decreases chars@.len() - index,
    {
        if chars[index] < '0' || chars[index] > '9' {
            assert(!text::is_digit(chars@[index as int]));
            return false;
        }
        index = index + 1;
    }
    chars.len() > 0
}

/// Whether a directory name is that of a user account: digits, not all zero.
pub open spec fn is_account(name: Seq<char>) -> bool {
    text::all_digits(name) && exists|i: int| 0 <= i < name.len() && #[trigger] name[i] != '0'
}

pub fn is_account_name(name: &str) -> (result: bool)
    ensures
        result == is_account(name@),
{
    let chars = text::chars_of(name);
    if !is_all_digits(chars.as_slice()) {
        return false;
    }
    let mut index: usize = 0;
    while index < chars.len()
        invariant
            index <= chars@.len(),
            chars@ == name@,
            text::all_digits(name@),
            forall|i: int| 0 <= i < index ==> #[trigger] name@[i] == '0',
        decreases chars@.len() - index,
    {
        if chars[index] != '0' {
            assert(name@[index as int] != '0');
            return true;
        }
        index = index + 1;
    }
    false
}

/// What to do with one entry of the user data.
#[derive(Clone, Copy, Debug, PartialEq, Eq, Structural)]
pub enum AccountStep {
    Skip,
    Inspect,
}

/// Judges the entry at a position of the user data, when `found` accounts
/// were taken before. A name that is no text is `None`.
pub fn account_step(index: usize, name: Option<&str>, is_directory: bool, found: usize) -> (result:
    Result<AccountStep, SteamLaunchOptionsReason>)
    ensures
        result == (if index == MAX_USERDATA_ENTRIES {
            Err(SteamLaunchOptionsReason::ScanLimitExceeded)
        } else if name is None || !is_account(name->0@) {
            Ok(AccountStep::Skip)
        } else if !is_directory {
            Err(SteamLaunchOptionsReason::SteamDataUnsafe)
        } else if found == MAX_USER_ACCOUNTS {
            Err(SteamLaunchOptionsReason::ScanLimitExceeded)
        } else {
            Ok(AccountStep::Inspect)
        }),
{
    if index == MAX_USERDATA_ENTRIES {
        return Err(SteamLaunchOptionsReason::ScanLimitExceeded);
    }
    match name {
        None => Ok(AccountStep::Skip),
        Some(name) => if !is_account_name(name) {
            Ok(AccountStep::Skip)
        } else if !is_directory {
            Err(SteamLaunchOptionsReason::SteamDataUnsafe)
        } else if found == MAX_USER_ACCOUNTS {
            Err(SteamLaunchOptionsReason::ScanLimitExceeded)
        } else {
            Ok(AccountStep::Inspect)
        },
    }
}

/// What a look at a path gave.
#[derive(Clone, Copy, Debug, PartialEq, Eq, Structural)]
pub enum PathKind {
    Absent,
    Directory,
    SymbolicLink,
    Other,
    Unreadable,
}

/// Accepts the configuration directory of an account, which may be absent.
pub fn check_config_directory(kind: PathKind) -> (result: Result<(), SteamLaunchOptionsReason>)
    ensures
        result == match kind {
            PathKind::Directory => Ok::<(), SteamLaunchOptionsReason>(()),
            PathKind::Absent => Ok(()),
            PathKind::SymbolicLink => Err(SteamLaunchOptionsReason::SteamDataUnsafe),
            PathKind::Other => Err(SteamLaunchOptionsReason::SteamDataUnsafe),
            PathKind::Unreadable => Err(SteamLaunchOptionsReason::SteamDataUnreadable),
        },
{
    match kind {
        PathKind::Directory => Ok(()),
        PathKind::Absent => Ok(()),
        PathKind::SymbolicLink => Err(SteamLaunchOptionsReason::SteamDataUnsafe),
        PathKind::Other => Err(SteamLaunchOptionsReason::SteamDataUnsafe),
        PathKind::Unreadable => Err(SteamLaunchOptionsReason::SteamDataUnreadable),
    }
}

/// Decides whether the user data of an installation is scanned.
pub fn check_userdata(kind: PathKind) -> (result: Result<bool, SteamLaunchOptionsReason>)
    ensures
        result == match kind {
            PathKind::Directory => Ok::<bool, SteamLaunchOptionsReason>(true),
            PathKind::Absent => Ok(false),
            PathKind::SymbolicLink => Err(SteamLaunchOptionsReason::SteamDataUnsafe),
            PathKind::Other => Err(SteamLaunchOptionsReason::SteamDataUnsafe),
            PathKind::Unreadable => Err(SteamLaunchOptionsReason::SteamDataUnreadable),
        },
{
    match kind {
        PathKind::Directory => Ok(true),
        PathKind::Absent => Ok(false),
        PathKind::SymbolicLink => Err(SteamLaunchOptionsReason::SteamDataUnsafe),
        PathKind::Other => Err(SteamLaunchOptionsReason::SteamDataUnsafe),
        PathKind::Unreadable => Err(SteamLaunchOptionsReason::SteamDataUnreadable),
    }
}

/// Decides whether a possible installation is resolved further.
pub fn check_root(kind: PathKind) -> (result: Result<bool, SteamLaunchOptionsReason>)
    ensures
        result == match kind {
            PathKind::Directory => Ok::<bool, SteamLaunchOptionsReason>(true),
            PathKind::SymbolicLink => Ok(true),
            PathKind::Absent => Ok(false),
            PathKind::Other => Err(SteamLaunchOptionsReason::SteamDataUnsafe),
            PathKind::Unreadable => Err(SteamLaunchOptionsReason::SteamDataUnreadable),
        },
{
    match kind {
        PathKind::Directory => Ok(true),
        PathKind::SymbolicLink => Ok(true),
        PathKind::Absent => Ok(false),
        PathKind::Other => Err(SteamLaunchOptionsReason::SteamDataUnsafe),
        PathKind::Unreadable => Err(SteamLaunchOptionsReason::SteamDataUnreadable),
    }
}

/// Accepts a resolved installation: a directory below the user's home.
pub fn check_resolved_root(root: &[u8], home: &[u8], is_directory: bool) -> (result: Result<
    (),
    SteamLaunchOptionsReason,
>)
    ensures
        result == (if paths::below(root@, home@) && is_directory {
            Ok::<(), SteamLaunchOptionsReason>(())
        } else {
            Err(SteamLaunchOptionsReason::SteamDataUnsafe)
        }),
{
    if paths::is_below(root, home) && is_directory {
        Ok(())
    } else {
        Err(SteamLaunchOptionsReason::SteamDataUnsafe)
    }
}

/// Paths in order, each once.
pub fn ordered_paths(found: &[Vec<u8>]) -> (result: PathMap<()>)
    ensures
        result@ == steam_discovery::path_set(text::byte_views(found@)),
{
    let ghost all = text::byte_views(found@);
    let mut ordered: PathMap<()> = PathMap::new();
    let mut index: usize = 0;
    assert(all.take(0) =~= Seq::<Seq<u8>>::empty());
    while index < found.len()
        invariant
            index <= found@.len(),
            all == text::byte_views(found@),
            ordered@ == steam_discovery::path_set(all.take(index as int)),
        decreases found@.len() - index,
    {
        assert(all.take(index + 1).drop_last() =~= all.take(index as int));
        assert(all.take(index + 1).last() == found@[index as int]@);
        let _ = ordered.insert_if_absent(vstd::slice::slice_to_vec(found[index].as_slice()), ());
        index = index + 1;
    }
    assert(all.take(index as int) =~= all);
    ordered
}

/// Whether a name is that of a Steam client process.
pub open spec fn is_client_name(name: Seq<char>) -> bool {
    text::alike(name, "steam"@) || text::alike(name, "steam.sh"@) || text::alike(
        name,
        "bin_steam.sh"@,
    )
}

pub fn is_steam_process_name(name: &str) -> (result: bool)
    ensures
        result == is_client_name(name@),
{
    let chars = text::chars_of(name);
    text::eq_ignore_ascii_case(chars.as_slice(), "steam") || text::eq_ignore_ascii_case(
        chars.as_slice(),
        "steam.sh",
    ) || text::eq_ignore_ascii_case(chars.as_slice(), "bin_steam.sh")
}

/// A text without line feeds at its end.
pub open spec fn without_line_feeds(text: Seq<char>) -> Seq<char>
    decreases text.len(),
{
    if text.len() > 0 && text.last() == '\n' {
        without_line_feeds(text.drop_last())
    } else {
        text
    }
}

/// The name of a process, as the system gives it.
pub fn process_name(bytes: &[u8]) -> (result: Option<String>)
    ensures
        match result {
            Some(name) => {
                &&& bytes@.len() <= MAX_PROCESS_NAME_BYTES
                &&& vstd::utf8::valid_utf8(bytes@)
                &&& name@ == without_line_feeds(vstd::utf8::decode_utf8(bytes@))
            },
            None => bytes@.len() > MAX_PROCESS_NAME_BYTES || !vstd::utf8::valid_utf8(bytes@),
        },
{
    if bytes.len() > MAX_PROCESS_NAME_BYTES {
        return None;
    }
    match text::decode(bytes) {
        None => None,
        Some(decoded) => {
            let chars = text::chars_of(decoded.as_str());
            let mut end: usize = chars.len();
            assert(chars@.take(end as int) =~= chars@);
            while end > 0 && chars[end - 1] == '\n'
                invariant
                    end <= chars@.len(),
                    without_line_feeds(chars@.take(end as int)) == without_line_feeds(chars@),
                decreases end,
            {
                assert(chars@.take(end as int).drop_last() =~= chars@.take(end - 1));
                end = end - 1;
            }
            let kept = vstd::slice::slice_subrange(chars.as_slice(), 0, end);
            assert(kept@ =~= chars@.take(end as int));
            Some(text::string_of(kept))
        },
    }
}

/// What a look at one process gave.
#[derive(Clone, Copy, Debug, PartialEq, Eq, Structural)]
pub enum ProcessVerdict {
    Other,
    SteamClient,
    Unknown,
}

/// Whether a directory name of the process table is that of a process.
pub fn is_process_directory(name: &str) -> (result: bool)
    ensures
        result == text::all_digits(name@),
{
    is_all_digits(text::chars_of(name).as_slice())
}

/// What a process is, by its name and the file name of its executable.
pub open spec fn verdict_of(
    process_name: Option<Seq<char>>,
    executable_name: Option<Seq<u8>>,
    still_there: bool,
) -> ProcessVerdict {
    let by_name = process_name matches Some(name) && is_client_name(name);
    let by_file = executable_name matches Some(name) && vstd::utf8::valid_utf8(name)
        && is_client_name(vstd::utf8::decode_utf8(name));
    if by_name || by_file {
        ProcessVerdict::SteamClient
    } else if process_name is None && executable_name is None && still_there {
        ProcessVerdict::Unknown
    } else {
        ProcessVerdict::Other
    }
}

/// Judges a process of the current user by its name and the file name of its
/// executable. Where neither can be read, the process is unknown unless it is
/// gone.
pub fn judge_process(
    process_name: Option<&str>,
    executable_name: Option<&[u8]>,
    still_there: bool,
) -> (result: ProcessVerdict)
    ensures
        result == verdict_of(
            match process_name {
                Some(name) => Some(name@),
                None => None,
            },
            match executable_name {
                Some(name) => Some(name@),
                None => None,
            },
            still_there,
        ),
        ({
            let by_name = process_name is Some && is_client_name(process_name->0@);
            let by_file = executable_name is Some && vstd::utf8::valid_utf8(executable_name->0@)
                && is_client_name(vstd::utf8::decode_utf8(executable_name->0@));
            result == (if by_name || by_file {
                ProcessVerdict::SteamClient
            } else if process_name is None && executable_name is None && still_there {
                ProcessVerdict::Unknown
            } else {
                ProcessVerdict::Other
            })
        }),
{
    if let Some(name) = process_name {
        if is_steam_process_name(name) {
            return ProcessVerdict::SteamClient;
        }
    }
    if let Some(bytes) = executable_name {
        if let Some(name) = text::decode(bytes) {
            if is_steam_process_name(name.as_str()) {
                return ProcessVerdict::SteamClient;
            }
        }
    }
    if process_name.is_none() && executable_name.is_none() && still_there {
        ProcessVerdict::Unknown
    } else {
        ProcessVerdict::Other
    }
}

/// The state of Steam, given what was seen in order, and whether the process
/// table has more entries than are looked at.
pub open spec fn scanned(verdicts: Seq<ProcessVerdict>, over_limit: bool) -> Result<
    SteamProcessState,
    SteamLaunchOptionsReason,
>
    decreases verdicts.len(),
{
    if verdicts.len() == 0 {
        if over_limit {
            Err(SteamLaunchOptionsReason::ScanLimitExceeded)
        } else {
            Ok(SteamProcessState::Stopped)
        }
    } else {
        match verdicts[0] {
            ProcessVerdict::SteamClient => Ok(SteamProcessState::Running),
            ProcessVerdict::Unknown => Err(SteamLaunchOptionsReason::ProcessStateUnavailable),
            ProcessVerdict::Other => scanned(verdicts.skip(1), over_limit),
        }
    }
}

/// Decides the state of Steam from what a scan saw. `over_limit` says that
/// the process table has more entries than are looked at.
pub fn steam_process_state(verdicts: &[ProcessVerdict], over_limit: bool) -> (result: Result<
    SteamProcessState,
    SteamLaunchOptionsReason,
>)
    ensures
        result == scanned(verdicts@, over_limit),
{
    let mut index: usize = 0;
    assert(verdicts@.skip(0) =~= verdicts@);
    while index < verdicts.len()
        invariant
            index <= verdicts@.len(),
            scanned(verdicts@, over_limit) == scanned(verdicts@.skip(index as int), over_limit),
        decreases verdicts@.len() - index,
    {
        assert(verdicts@.skip(index as int)[0] == verdicts@[index as int]);
        assert(verdicts@.skip(index as int).skip(1) =~= verdicts@.skip(index + 1));
        match verdicts[index] {
            ProcessVerdict::SteamClient => {
                return Ok(SteamProcessState::Running);
            },
            ProcessVerdict::Unknown => {
                return Err(SteamLaunchOptionsReason::ProcessStateUnavailable);
            },
            ProcessVerdict::Other => {},
        }
        index = index + 1;
    }
    if over_limit {
        Err(SteamLaunchOptionsReason::ScanLimitExceeded)
    } else {
        Ok(SteamProcessState::Stopped)
    }
}

/// Where every account could be read, no account with the options means that
/// they are not configured, and accounts that differ need attention.
pub proof fn accounts_have_to_agree(
    accounts: Seq<Result<AccountLaunchOptions, SteamLaunchOptionsReason>>,
)
    requires
        forall|i: int|
            0 <= i < accounts.len() ==> (#[trigger] accounts[i] matches Ok(options) && options
                != AccountLaunchOptions::Ambiguous),
    ensures
        ({
            let with = exists|i: int|
                0 <= i < accounts.len() && #[trigger] accounts[i] == Ok::<
                    AccountLaunchOptions,
                    SteamLaunchOptionsReason,
                >(AccountLaunchOptions::Configured);
            let without = exists|i: int|
                0 <= i < accounts.len() && #[trigger] accounts[i] == Ok::<
                    AccountLaunchOptions,
                    SteamLaunchOptionsReason,
                >(AccountLaunchOptions::NotConfigured);
            stored_status(1, accounts) == Ok::<SteamLaunchOptionsStatus, SteamLaunchOptionsReason>(
                if !with {
                    SteamLaunchOptionsStatus::NotConfigured
                } else if !without {
                    SteamLaunchOptionsStatus::Configured
                } else {
                    SteamLaunchOptionsStatus::Ambiguous(
                        SteamLaunchOptionsReason::MultipleAccountsDisagree,
                    )
                },
            )
        }),
{
    lemma_accounts_agree(accounts, false, false);
}

proof fn lemma_accounts_agree(
    accounts: Seq<Result<AccountLaunchOptions, SteamLaunchOptionsReason>>,
    some_configured: bool,
    some_not: bool,
)
    requires
        forall|i: int|
            0 <= i < accounts.len() ==> (#[trigger] accounts[i] matches Ok(options) && options
                != AccountLaunchOptions::Ambiguous),
    ensures
        ({
            let with = some_configured || exists|i: int|
                0 <= i < accounts.len() && #[trigger] accounts[i] == Ok::<
                    AccountLaunchOptions,
                    SteamLaunchOptionsReason,
                >(AccountLaunchOptions::Configured);
            let without = some_not || exists|i: int|
                0 <= i < accounts.len() && #[trigger] accounts[i] == Ok::<
                    AccountLaunchOptions,
                    SteamLaunchOptionsReason,
                >(AccountLaunchOptions::NotConfigured);
            persisted(accounts, some_configured, some_not) == Ok::<
                SteamLaunchOptionsStatus,
                SteamLaunchOptionsReason,
            >(
                if !with {
                    SteamLaunchOptionsStatus::NotConfigured
                } else if !without {
                    SteamLaunchOptionsStatus::Configured
                } else {
                    SteamLaunchOptionsStatus::Ambiguous(
                        SteamLaunchOptionsReason::MultipleAccountsDisagree,
                    )
                },
            )
        }),
    decreases accounts.len(),
{
    if accounts.len() > 0 {
        let rest = accounts.skip(1);
        assert forall|i: int| 0 <= i < rest.len() implies (#[trigger] rest[i] matches Ok(options)
            && options != AccountLaunchOptions::Ambiguous) by {
            assert(rest[i] == accounts[i + 1]);
        }
        assert forall|i: int| 0 <= i < accounts.len() implies #[trigger] accounts[i] == accounts[0]
            || (i > 0 && accounts[i] == rest[i - 1]) by {}
        let first = accounts[0];
        if first == Ok::<AccountLaunchOptions, SteamLaunchOptionsReason>(
            AccountLaunchOptions::Configured,
        ) {
            lemma_accounts_agree(rest, true, some_not);
        } else {
            lemma_accounts_agree(rest, some_configured, true);
        }
        assert forall|i: int| 0 <= i < rest.len() implies #[trigger] rest[i] == accounts[i + 1] by {}
    }
}

/// The options of an app are read below its number in a user's configuration,
/// whatever the letter case of the names on the way.
pub proof fn options_are_read_below_the_app(app_id: u32, options: Seq<char>)
    ensures
        options_value(
            nested(
                "UserLocalConfigStore"@,
                nested(
                    "software"@,
                    nested(
                        "valve"@,
                        nested(
                            "steam"@,
                            nested(
                                "Apps"@,
                                nested(
                                    text::decimal(app_id as nat),
                                    seq![("launchoptions"@, VdfNode::Text(options))],
                                ),
                            ),
                        ),
                    ),
                ),
            ),
            app_id,
        ) == Ok::<Option<Seq<char>>, ()>(Some(options)),
{
    reveal_strlit("software");
    reveal_strlit("Software");
    reveal_strlit("valve");
    reveal_strlit("Valve");
    reveal_strlit("steam");
    reveal_strlit("Steam");
    reveal_strlit("Apps");
    reveal_strlit("apps");
    reveal_strlit("launchoptions");
    reveal_strlit("LaunchOptions");
    text::lemma_alike_by_place("UserLocalConfigStore"@, "UserLocalConfigStore"@);
    text::lemma_alike_by_place("software"@, "Software"@);
    text::lemma_alike_by_place("valve"@, "Valve"@);
    text::lemma_alike_by_place("steam"@, "Steam"@);
    text::lemma_alike_by_place("Apps"@, "apps"@);
    text::lemma_alike_by_place("launchoptions"@, "LaunchOptions"@);
    let number = text::decimal(app_id as nat);
    let app = seq![("launchoptions"@, VdfNode::Text(options))];
    lemma_sole_value("launchoptions"@, VdfNode::Text(options), "LaunchOptions"@, false);
    lemma_sole_value(number, VdfNode::Object(app), number, true);
    let apps = nested(number, app);
    lemma_sole_value("Apps"@, VdfNode::Object(apps), "apps"@, false);
    let steam = nested("Apps"@, apps);
    lemma_sole_value("steam"@, VdfNode::Object(steam), "Steam"@, false);
    let valve = nested("steam"@, steam);
    lemma_sole_value("valve"@, VdfNode::Object(valve), "Valve"@, false);
    let software = nested("valve"@, valve);
    lemma_sole_value("software"@, VdfNode::Object(software), "Software"@, false);
    let store = nested("software"@, software);
    lemma_sole_value(
        "UserLocalConfigStore"@,
        VdfNode::Object(store),
        "UserLocalConfigStore"@,
        false,
    );
}

/// An object with one entry, itself an object.
pub open spec fn nested(name: Seq<char>, entries: Seq<(Seq<char>, VdfNode)>) -> Seq<
    (Seq<char>, VdfNode),
> {
    seq![(name, VdfNode::Object(entries))]
}

proof fn lemma_sole_value(key: Seq<char>, value: VdfNode, name: Seq<char>, exact: bool)
    requires
        vdf::is_named(key, name, exact),
    ensures
        vdf::values_named(seq![(key, value)], name, exact) == seq![value],
{
    let entries = seq![(key, value)];
    assert(entries.drop_last() =~= Seq::<(Seq<char>, VdfNode)>::empty());
    assert(vdf::values_named(entries.drop_last(), name, exact) =~= Seq::<VdfNode>::empty());
    assert(vdf::values_named(entries, name, exact) =~= seq![value]);
}

/// Steam runs where one of the processes is its client and every process before
/// that is known to be another. It is stopped where all of them are another.
pub proof fn one_client_means_running(verdicts: Seq<ProcessVerdict>, at: int, over_limit: bool)
    requires
        0 <= at <= verdicts.len(),
        forall|i: int| 0 <= i < at ==> #[trigger] verdicts[i] == ProcessVerdict::Other,
    ensures
        at < verdicts.len() && verdicts[at] == ProcessVerdict::SteamClient ==> scanned(
            verdicts,
            over_limit,
        ) == Ok::<SteamProcessState, SteamLaunchOptionsReason>(SteamProcessState::Running),
        at < verdicts.len() && verdicts[at] == ProcessVerdict::Unknown ==> scanned(
            verdicts,
            over_limit,
        ) is Err,
        at == verdicts.len() && !over_limit ==> scanned(verdicts, over_limit) == Ok::<
            SteamProcessState,
            SteamLaunchOptionsReason,
        >(SteamProcessState::Stopped),
        at == verdicts.len() && over_limit ==> scanned(verdicts, over_limit) is Err,
    decreases verdicts.len(),
{
    if at > 0 {
        let rest = verdicts.skip(1);
        assert forall|i: int| 0 <= i < at - 1 implies #[trigger] rest[i]
            == ProcessVerdict::Other by {
            assert(rest[i] == verdicts[i + 1]);
        }
        if at < verdicts.len() {
            assert(rest[at - 1] == verdicts[at]);
        }
        assert(verdicts[0] == ProcessVerdict::Other);
        one_client_means_running(rest, at - 1, over_limit);
    }
}

/// While Steam runs, what is saved may be old: only options that are there are
/// taken at their word.
pub proof fn running_steam_may_differ(stored: SteamLaunchOptionsStatus)
    ensures
        combined(stored, Ok(SteamProcessState::Stopped)) == stored,
        combined(stored, Ok(SteamProcessState::Running)) == if stored
            == SteamLaunchOptionsStatus::Configured {
            stored
        } else {
            SteamLaunchOptionsStatus::Ambiguous(SteamLaunchOptionsReason::SteamRunning)
        },
{
}

/// Steam's client is told by either of its names, in any letter case. A process
/// of which no name can be read is unknown as long as it is there.
pub proof fn clients_are_told_by_either_name(
    name: Seq<char>,
    other: Option<Seq<char>>,
    file: Option<Seq<u8>>,
    still_there: bool,
)
    requires
        text::alike(name, "steam"@) || text::alike(name, "steam.sh"@) || text::alike(
            name,
            "bin_steam.sh"@,
        ),
    ensures
        verdict_of(Some(name), file, still_there) == ProcessVerdict::SteamClient,
        verdict_of(other, Some(vstd::utf8::encode_utf8(name)), still_there)
            == ProcessVerdict::SteamClient,
        verdict_of(None, None, true) == ProcessVerdict::Unknown,
        verdict_of(None, None, false) == ProcessVerdict::Other,
{
    vstd::utf8::encode_utf8_decode_utf8(name);
    vstd::utf8::encode_utf8_valid_utf8(name);
}

/// A process with another name is another process.
pub proof fn other_processes_are_others(name: Seq<char>, still_there: bool)
    requires
        !text::alike(name, "steam"@),
        !text::alike(name, "steam.sh"@),
        !text::alike(name, "bin_steam.sh"@),
    ensures
        verdict_of(Some(name), None, still_there) == ProcessVerdict::Other,
{
}

/// How much of Steam's data and of the process table is looked at.
pub proof fn steam_scans_are_bounded()
    ensures
        MAX_USERDATA_ENTRIES == 512,
        MAX_USER_ACCOUNTS == 64,
        MAX_PROC_ENTRIES == 32 * 1_024,
        MAX_PROCESS_NAME_BYTES == 64,
        MAX_EXPECTED_LAUNCH_OPTIONS_BYTES == 4 * 1_024,
{
}

/// Every number but zero names an account.
pub proof fn accounts_are_numbers(number: nat)
    ensures
        is_account(text::decimal(number)) <==> number > 0,
    decreases number,
{
    text::decimal_round_trip(number);
    let digits = text::decimal(number);
    if number == 0 {
        assert(digits =~= seq!['0']);
        assert forall|i: int| 0 <= i < digits.len() implies digits[i] == '0' by {}
    } else if number < 10 {
        assert(digits[0] != '0');
    } else {
        let before = text::decimal(number / 10);
        accounts_are_numbers(number / 10);
        let i = choose|i: int| 0 <= i < before.len() && #[trigger] before[i] != '0';
        assert(digits[i] == before[i]);
        assert(digits[i] != '0');
    }
}

/// A process's name ends before its line feed.
pub proof fn names_end_before_the_line_feed(name: Seq<char>)
    requires
        name.len() > 0 ==> name.last() != '\n',
    ensures
        without_line_feeds(name) == name,
        without_line_feeds(name.push('\n')) == name,
{
    let line = name.push('\n');
    assert(line.last() == '\n');
    assert(line.drop_last() =~= name);
    assert(without_line_feeds(name) == name);
    assert(without_line_feeds(line) == without_line_feeds(line.drop_last()));
}

} // verus!
