//! Recognition of running games among a user's processes.
//!
//! A process is a game only where its environment says so: Steam, Proton or
//! GameMode started it. Names of executables decide nothing but what is left
//! out.
use crate::games::{GameProcess, ProcessView};
use crate::paths;
use crate::text;
use vstd::prelude::*;
use vstd::string::*;

verus! {

broadcast use vstd::string::group_string_axioms;

pub const MAX_COMM_BYTES: usize = 256;

pub const MAX_ENVIRON_BYTES: usize = 65_536;

/// How many entries of the process list one scan looks at.
pub const MAX_PROC_ENTRIES_PER_SCAN: usize = 32_768;

/// How many games one scan reports.
pub const MAX_DETECTED_GAMES: usize = 256;

/// The value of the first entry with a name.
pub open spec fn first_value(entries: Seq<Seq<u8>>, name: Seq<u8>) -> Option<Seq<u8>>
    decreases entries.len(),
{
    if entries.len() == 0 {
        None
    } else {
        match text::split_at_first(entries[0], 61u8) {
            Some((key, value)) => if key == name {
                Some(value)
            } else {
                first_value(entries.skip(1), name)
            },
            None => first_value(entries.skip(1), name),
        }
    }
}

/// The value of a variable in an environment, whose entries end in zero bytes.
pub open spec fn variable(environ: Seq<u8>, name: Seq<u8>) -> Option<Seq<u8>> {
    first_value(text::fields_of(environ, 0u8), name)
}

/// Looks up a variable in an environment.
pub fn environment_value(environ: &[u8], name: &[u8]) -> (result: Option<Vec<u8>>)
    ensures
        match result {
            Some(value) => variable(environ@, name@) == Some(value@),
            None => variable(environ@, name@) is None,
        },
{
    let mut start: usize = 0;
    assert(environ@.skip(0) =~= environ@);
    loop
        invariant
            start <= environ@.len(),
            first_value(text::fields_of(environ@.skip(start as int), 0u8), name@) == variable(
                environ@,
                name@,
            ),
        decreases environ@.len() - start,
    {
        let rest = vstd::slice::slice_subrange(environ, start, environ.len());
        assert(rest@ =~= environ@.skip(start as int));
        let length: usize = text::find_byte(rest, 0u8);
        let entry = vstd::slice::slice_subrange(rest, 0, length);
        assert(entry@ =~= rest@.take(length as int));
        let ghost fields = text::fields_of(rest@, 0u8);
        assert(fields[0] == entry@) by {
            if length == rest@.len() {
                assert(rest@.take(length as int) =~= rest@);
            }
        }
        let equals: usize = text::find_byte(entry, 61u8);
        if equals < entry.len() {
            let key = vstd::slice::slice_subrange(entry, 0, equals);
            assert(key@ =~= entry@.take(equals as int));
            if text::same_bytes(key, name) {
                let value = vstd::slice::slice_to_vec(
                    vstd::slice::slice_subrange(entry, equals + 1, entry.len()),
                );
                assert(value@ =~= entry@.skip(equals + 1));
                return Some(value);
            }
        }
        if length == rest.len() {
            assert(fields.skip(1) =~= Seq::<Seq<u8>>::empty());
            assert(first_value(fields.skip(1), name@) is None);
            return None;
        }
        assert(rest@.skip(length + 1) =~= environ@.skip(start + length + 1));
        assert(fields.skip(1) =~= text::fields_of(rest@.skip(length + 1), 0u8));
        start = start + length + 1;
    }
}

/// The application that a value names.
pub open spec fn app_id(value: Seq<u8>) -> Option<u32> {
    if !vstd::utf8::valid_utf8(value) {
        None
    } else {
        match text::parsed_decimal(vstd::utf8::decode_utf8(value), u32::MAX as nat) {
            Some(id) => if id != 0 {
                Some(id as u32)
            } else {
                None
            },
            None => None,
        }
    }
}

fn parse_app_id(value: &[u8]) -> (result: Option<u32>)
    ensures
        result == app_id(value@),
{
    match text::decode(value) {
        None => None,
        Some(decoded) => {
            let chars = text::chars_of(decoded.as_str());
            match text::parse_decimal(chars.as_slice(), u32::MAX as u64) {
                Some(id) => if id != 0 {
                    Some(id as u32)
                } else {
                    None
                },
                None => None,
            }
        },
    }
}

/// The name of an executable, or nothing where it is no text.
pub open spec fn executable_name(executable: Seq<u8>) -> Seq<char> {
    match paths::final_name(executable) {
        Some(name) => if vstd::utf8::valid_utf8(name) {
            vstd::utf8::decode_utf8(name)
        } else {
            Seq::empty()
        },
        None => Seq::empty(),
    }
}

fn name_of(executable: &[u8]) -> (result: Vec<char>)
    ensures
        result@ == executable_name(executable@),
{
    if let Some(name) = paths::file_name(executable) {
        if let Some(decoded) = text::decode(name.as_slice()) {
            return text::chars_of(decoded.as_str());
        }
    }
    Vec::new()
}

/// Whether a name starts like this program's own.
pub open spec fn own_name(name: Seq<char>) -> bool {
    name.len() >= 7 && text::alike(name.take(7), "redunar"@)
}

fn is_own_name(name: &[char]) -> (result: bool)
    ensures
        result == own_name(name@),
{
    if name.len() < 7 {
        return false;
    }
    let start = vstd::slice::slice_subrange(name, 0, 7);
    assert(start@ =~= name@.take(7));
    text::eq_ignore_ascii_case(start, "redunar")
}

/// Whether a name is that of a program that only helps games to run.
pub open spec fn helper_name(name: Seq<char>) -> bool {
    text::alike(name, "bin_steam.sh"@) || text::alike(name, "gamemoderun"@) || text::alike(
        name,
        "mangohud"@,
    ) || text::alike(name, "pressure-vessel"@) || text::alike(name, "pv-bwrap"@) || text::alike(
        name,
        "reaper"@,
    ) || text::alike(name, "steam-runtime"@) || text::alike(
        name,
        "steam-runtime-steam-remote"@,
    ) || text::alike(name, "steam.sh"@) || text::alike(name, "steam"@) || text::alike(
        name,
        "steamwebhelper"@,
    ) || text::alike(name, "wineserver"@)
}

fn is_helper_name(name: &[char]) -> (result: bool)
    ensures
        result == helper_name(name@),
{
    text::eq_ignore_ascii_case(name, "bin_steam.sh") || text::eq_ignore_ascii_case(
        name,
        "gamemoderun",
    ) || text::eq_ignore_ascii_case(name, "mangohud") || text::eq_ignore_ascii_case(
        name,
        "pressure-vessel",
    ) || text::eq_ignore_ascii_case(name, "pv-bwrap") || text::eq_ignore_ascii_case(name, "reaper")
        || text::eq_ignore_ascii_case(name, "steam-runtime") || text::eq_ignore_ascii_case(
        name,
        "steam-runtime-steam-remote",
    ) || text::eq_ignore_ascii_case(name, "steam.sh") || text::eq_ignore_ascii_case(name, "steam")
        || text::eq_ignore_ascii_case(name, "steamwebhelper") || text::eq_ignore_ascii_case(
        name,
        "wineserver",
    )
}

/// Whether a process is left out by its names.
pub open spec fn left_out(comm: Seq<char>, executable: Seq<u8>) -> bool {
    let name = executable_name(executable);
    own_name(comm) || own_name(name) || helper_name(comm) || helper_name(name)
}

/// The application that an environment names: in the first of the variables
/// that is there.
pub open spec fn environment_app_id(environ: Seq<u8>) -> Option<u32> {
    match variable(environ, "SteamAppId".spec_bytes()) {
        Some(value) => app_id(value),
        None => match variable(environ, "SteamGameId".spec_bytes()) {
            Some(value) => app_id(value),
            None => match variable(environ, "STEAM_COMPAT_APP_ID".spec_bytes()) {
                Some(value) => app_id(value),
                None => None,
            },
        },
    }
}

fn find_app_id(environ: &[u8]) -> (result: Option<u32>)
    ensures
        result == environment_app_id(environ@),
{
    if let Some(value) = environment_value(environ, "SteamAppId".as_bytes()) {
        return parse_app_id(value.as_slice());
    }
    if let Some(value) = environment_value(environ, "SteamGameId".as_bytes()) {
        return parse_app_id(value.as_slice());
    }
    if let Some(value) = environment_value(environ, "STEAM_COMPAT_APP_ID".as_bytes()) {
        return parse_app_id(value.as_slice());
    }
    None
}

/// The game that a process is.
pub open spec fn game_of(pid: u32, executable: Seq<u8>, comm: Seq<u8>, environ: Seq<u8>) -> Option<
    ProcessView,
> {
    let name = text::trimmed(vstd::utf8::decode_utf8(comm));
    let id = environment_app_id(environ);
    let game_mode = variable(environ, "GAMEMODERUNEXEC".spec_bytes()) is Some;
    let proton = variable(environ, "STEAM_COMPAT_DATA_PATH".spec_bytes()) is Some;
    if comm.len() <= MAX_COMM_BYTES && vstd::utf8::valid_utf8(comm) && name.len() > 0 && !left_out(
        name,
        executable,
    ) && environ.len() <= MAX_ENVIRON_BYTES && (id is Some || proton || game_mode) {
        Some(
            ProcessView {
                pid,
                comm: name,
                executable,
                steam_app_id: id,
                game_mode_active: game_mode,
            },
        )
    } else {
        None
    }
}

/// Decides whether a process is a game, from its executable, its name and
/// its environment.
pub fn inspect_process(pid: u32, executable: &[u8], comm: &[u8], environ: &[u8]) -> (result: Option<
    GameProcess,
>)
    ensures
        match result {
            Some(game) => game_of(pid, executable@, comm@, environ@) == Some(game@),
            None => game_of(pid, executable@, comm@, environ@) is None,
        },
{
    if comm.len() > MAX_COMM_BYTES || environ.len() > MAX_ENVIRON_BYTES {
        return None;
    }
    let decoded = match text::decode(comm) {
        Some(decoded) => decoded,
        None => {
            return None;
        },
    };
    let chars = text::chars_of(decoded.as_str());
    let name = text::trim(chars.as_slice());
    let file = name_of(executable);
    if name.len() == 0 || is_own_name(name.as_slice()) || is_own_name(file.as_slice())
        || is_helper_name(name.as_slice()) || is_helper_name(file.as_slice()) {
        return None;
    }
    let steam_app_id = find_app_id(environ);
    let game_mode_active = environment_value(environ, "GAMEMODERUNEXEC".as_bytes()).is_some();
    let proton = environment_value(environ, "STEAM_COMPAT_DATA_PATH".as_bytes()).is_some();
    if steam_app_id.is_none() && !proton && !game_mode_active {
        return None;
    }
    let executable = vstd::slice::slice_to_vec(executable);
    Some(
        GameProcess {
            pid,
            comm: text::string_of(name.as_slice()),
            executable,
            steam_app_id,
            game_mode_active,
        },
    )
}

/// How many games at the front have no larger identifier.
pub open spec fn place_of(games: Seq<ProcessView>, pid: u32) -> int
    decreases games.len(),
{
    if games.len() == 0 || games[0].pid > pid {
        0
    } else {
        1 + place_of(games.skip(1), pid)
    }
}

/// Games with one more, put behind those with no larger identifier.
pub open spec fn placed(games: Seq<ProcessView>, game: ProcessView) -> Seq<ProcessView> {
    games.insert(place_of(games, game.pid), game)
}

pub open spec fn in_pid_order(games: Seq<ProcessView>) -> bool {
    forall|i: int, j: int|
        0 <= i < j < games.len() ==> (#[trigger] games[i]).pid <= (#[trigger] games[j]).pid
}

proof fn lemma_place(games: Seq<ProcessView>, pid: u32, place: int)
    requires
        0 <= place <= games.len(),
        forall|i: int| 0 <= i < place ==> (#[trigger] games[i]).pid <= pid,
        place < games.len() ==> games[place].pid > pid,
    ensures
        place_of(games, pid) == place,
    decreases games.len(),
{
    if place > 0 {
        let rest = games.skip(1);
        assert forall|i: int| 0 <= i < place - 1 implies (#[trigger] rest[i]).pid <= pid by {
            assert(rest[i] == games[i + 1]);
        }
        assert(games[0].pid <= pid);
        lemma_place(rest, pid, place - 1);
    }
}

proof fn lemma_place_bounds(games: Seq<ProcessView>, pid: u32)
    ensures
        0 <= place_of(games, pid) <= games.len(),
        forall|i: int| 0 <= i < place_of(games, pid) ==> (#[trigger] games[i]).pid <= pid,
        place_of(games, pid) < games.len() ==> games[place_of(games, pid)].pid > pid,
    decreases games.len(),
{
    if games.len() > 0 && games[0].pid <= pid {
        let rest = games.skip(1);
        lemma_place_bounds(rest, pid);
        assert forall|i: int| 0 <= i < place_of(games, pid) implies (#[trigger] games[i]).pid
            <= pid by {
            if i > 0 {
                assert(games[i] == rest[i - 1]);
            }
        }
    }
}

/// Games stay in the order of their identifiers, and none is lost or added
/// but the one that was put in.
pub proof fn placed_keeps_pid_order(games: Seq<ProcessView>, game: ProcessView)
    requires
        in_pid_order(games),
    ensures
        in_pid_order(placed(games, game)),
        placed(games, game).to_multiset() == games.to_multiset().insert(game),
{
    let place = place_of(games, game.pid);
    lemma_place_bounds(games, game.pid);
    let now = placed(games, game);
    games.to_multiset_ensures();
    broadcast use vstd::seq_lib::group_to_multiset_ensures;
    assert(now =~= games.insert(place, game));
    assert forall|i: int, j: int| 0 <= i < j < now.len() implies (#[trigger] now[i]).pid <= (
    #[trigger] now[j]).pid by {
        if i < place {
            assert(now[i] == games[i]);
        } else if i > place {
            assert(now[i] == games[i - 1]);
        }
        if j < place {
            assert(now[j] == games[j]);
        } else if j > place {
            assert(now[j] == games[j - 1]);
            assert(games[place].pid <= games[j - 1].pid);
        }
    }
}

pub open spec fn process_views(games: Seq<GameProcess>) -> Seq<ProcessView> {
    games.map_values(|game: GameProcess| game@)
}

/// One pass over the process list.
#[derive(Debug)]
pub struct GameScan {
    entries: usize,
    games: Vec<GameProcess>,
}

/// What a [`GameScan`] holds.
#[verifier::ext_equal]
pub ghost struct ScanView {
    /// How many entries were looked at.
    pub entries: nat,
    pub games: Seq<ProcessView>,
}

impl View for GameScan {
    type V = ScanView;

    closed spec fn view(&self) -> ScanView {
        ScanView { entries: self.entries as nat, games: process_views(self.games@) }
    }
}

impl GameScan {
    #[verifier::type_invariant]
    spec fn bounded(self) -> bool {
        self.entries <= MAX_PROC_ENTRIES_PER_SCAN && self.games@.len() <= MAX_DETECTED_GAMES
            && in_pid_order(process_views(self.games@))
    }

    pub fn new() -> (result: Self)
        ensures
            result@ == (ScanView { entries: 0, games: Seq::empty() }),
    {
        let scan = GameScan { entries: 0, games: Vec::new() };
        assert(scan@.games =~= Seq::<ProcessView>::empty());
        scan
    }

    /// Whether the scan looks at one more entry.
    pub fn next_entry(&mut self) -> (result: bool)
        ensures
            result == (old(self)@.entries < MAX_PROC_ENTRIES_PER_SCAN && old(self)@.games.len()
                < MAX_DETECTED_GAMES),
            final(self)@ == (if result {
                ScanView { entries: old(self)@.entries + 1, ..old(self)@ }
            } else {
                old(self)@
            }),
    {
        proof {
            use_type_invariant(&*self);
        }
        if self.entries >= MAX_PROC_ENTRIES_PER_SCAN || self.games.len() >= MAX_DETECTED_GAMES {
            return false;
        }
        self.entries = self.entries + 1;
        true
    }

    /// Adds a game, where there is room for one.
    pub fn add(&mut self, game: GameProcess)
        ensures
            final(self)@ == (if old(self)@.games.len() < MAX_DETECTED_GAMES {
                ScanView { games: placed(old(self)@.games, game@), ..old(self)@ }
            } else {
                old(self)@
            }),
    {
        proof {
            use_type_invariant(&*self);
        }
        if self.games.len() >= MAX_DETECTED_GAMES {
            return;
        }
        let ghost before = process_views(self.games@);
        let mut place: usize = 0;
        while place < self.games.len() && self.games[place].pid <= game.pid
            invariant
                place <= self.games@.len(),
                before == process_views(self.games@),
                forall|i: int| 0 <= i < place ==> (#[trigger] before[i]).pid <= game.pid,
            decreases self.games@.len() - place,
        {
            assert(before[place as int] == self.games@[place as int]@);
            place = place + 1;
        }
        proof {
            if place < self.games@.len() {
                assert(before[place as int] == self.games@[place as int]@);
            }
            lemma_place(before, game.pid, place as int);
            placed_keeps_pid_order(before, game@);
        }
        let ghost added = game@;
        let mut games: Vec<GameProcess> = Vec::new();
        std::mem::swap(&mut games, &mut self.games);
        games.insert(place, game);
        assert(process_views(games@) =~= before.insert(place as int, added));
        self.games = games;
    }

    /// The games in the order of their identifiers.
    pub fn into_games(self) -> (result: Vec<GameProcess>)
        ensures
            process_views(result@) == self@.games,
            in_pid_order(process_views(result@)),
            result@.len() <= MAX_DETECTED_GAMES,
    {
        proof {
            use_type_invariant(&self);
        }
        self.games
    }
}

/// Whose games are looked for, and where.
#[derive(Clone, Debug, PartialEq, Eq)]
pub struct LinuxGameProcessDetector {
    pub proc_root: Vec<u8>,
    pub user_id: u32,
}

impl LinuxGameProcessDetector {
    pub fn new(proc_root: Vec<u8>, user_id: u32) -> (result: Self)
        ensures
            result.proc_root@ == proc_root@,
            result.user_id == user_id,
    {
        LinuxGameProcessDetector { proc_root, user_id }
    }

    /// The process that an entry of the process list stands for, where it
    /// belongs to the user.
    pub fn process_entry(&self, name: &[u8], owner: u32) -> (result: Option<u32>)
        ensures
            match result {
                Some(pid) => owner == self.user_id && entry_pid(name@) == Some(pid),
                None => owner != self.user_id || entry_pid(name@) is None,
            },
    {
        if owner != self.user_id {
            return None;
        }
        numeric_pid(name)
    }
}

/// The identifier that a directory name spells.
pub open spec fn entry_pid(name: Seq<u8>) -> Option<u32> {
    if !vstd::utf8::valid_utf8(name) {
        None
    } else {
        match text::parsed_decimal(vstd::utf8::decode_utf8(name), u32::MAX as nat) {
            Some(pid) => Some(pid as u32),
            None => None,
        }
    }
}

/// Reads the identifier that a directory name spells.
pub fn numeric_pid(name: &[u8]) -> (result: Option<u32>)
    ensures
        result == entry_pid(name@),
{
    match text::decode(name) {
        None => None,
        Some(decoded) => {
            let chars = text::chars_of(decoded.as_str());
            match text::parse_decimal(chars.as_slice(), u32::MAX as u64) {
                Some(pid) => Some(pid as u32),
                None => None,
            }
        },
    }
}

/// A process list that cannot be read.
#[derive(Clone, Debug, PartialEq, Eq)]
pub struct GameDetectionError {
    message: String,
}

impl View for GameDetectionError {
    type V = Seq<char>;

    closed spec fn view(&self) -> Seq<char> {
        self.message@
    }
}

impl GameDetectionError {
    pub fn new(proc_root: &[u8], error: &str) -> (result: Self)
        ensures
            result@ == "could not scan "@ + text::lossy_text(proc_root@) + ": "@ + error@,
    {
        let mut message = "could not scan ".to_owned();
        message.append(text::decode_lossy(proc_root).as_str());
        message.append(": ");
        message.append(error);
        GameDetectionError { message }
    }

    /// The explanation.
    pub fn message(&self) -> (result: &str)
        ensures
            result@ == self@,
    {
        self.message.as_str()
    }
}

/// An environment that names no application and no game runtime makes no
/// game, whatever the process is called.
pub proof fn games_need_a_runtime(pid: u32, executable: Seq<u8>, comm: Seq<u8>, environ: Seq<u8>)
    requires
        environment_app_id(environ) is None,
        variable(environ, "GAMEMODERUNEXEC".spec_bytes()) is None,
        variable(environ, "STEAM_COMPAT_DATA_PATH".spec_bytes()) is None,
    ensures
        game_of(pid, executable, comm, environ) is None,
{
}

/// A variable has the value behind its first equals sign, in the first entry
/// with its name.
pub proof fn variables_are_found_by_name(
    before: Seq<Seq<u8>>,
    name: Seq<u8>,
    value: Seq<u8>,
    rest: Seq<Seq<u8>>,
)
    requires
        !name.contains('=' as u8),
        forall|i: int|
            0 <= i < before.len() ==> (text::split_at_first(
                #[trigger] before[i],
                '=' as u8,
            ) matches Some((key, _)) ==> key != name),
    ensures
        first_value(before + seq![name + seq!['=' as u8] + value] + rest, name) == Some(value),
    decreases before.len(),
{
    let entry = name + seq![61u8] + value;
    let all = before + seq![entry] + rest;
    if before.len() == 0 {
        assert(all[0] == entry);
        assert forall|i: int| 0 <= i < name.len() implies entry[i] != 61u8 by {
            assert(entry[i] == name[i]);
            assert(name.contains(name[i]));
        }
        text::lemma_first_index_is(entry, 61u8, name.len() as int);
        assert(entry.take(name.len() as int) =~= name);
        assert(entry.skip(name.len() as int + 1) =~= value);
    } else {
        let later = before.skip(1);
        assert(all[0] == before[0]);
        assert(all.skip(1) =~= later + seq![entry] + rest);
        assert forall|i: int| 0 <= i < later.len() implies (text::split_at_first(
            #[trigger] later[i],
            '=' as u8,
        ) matches Some((key, _)) ==> key != name) by {
            assert(later[i] == before[i + 1]);
        }
        variables_are_found_by_name(later, name, value, rest);
    }
}

/// An environment is a run of entries with a zero byte between each two.
pub proof fn entries_end_with_a_zero(entries: Seq<Seq<u8>>, name: Seq<u8>)
    requires
        entries.len() > 0,
        forall|i: int| 0 <= i < entries.len() ==> !(#[trigger] entries[i]).contains(0u8),
    ensures
        variable(text::joined_fields(entries, 0u8), name) == first_value(entries, name),
{
    text::joined_fields_round_trip(entries, 0u8);
}

/// The number of a Steam game is that of the first of three variables that is
/// there, and has to be one.
pub proof fn the_first_number_counts(environ: Seq<u8>, number: u32)
    requires
        number > 0,
    ensures
        ({
            let written = vstd::utf8::encode_utf8(text::decimal(number as nat));
            let first = variable(environ, "SteamAppId".spec_bytes());
            let second = variable(environ, "SteamGameId".spec_bytes());
            let third = variable(environ, "STEAM_COMPAT_APP_ID".spec_bytes());
            &&& first == Some(written) ==> environment_app_id(environ) == Some(number)
            &&& first is None && second == Some(written) ==> environment_app_id(environ) == Some(
                number,
            )
            &&& first is None && second is None && third == Some(written) ==> environment_app_id(
                environ,
            ) == Some(number)
            &&& first is None && second is None && third is None ==> environment_app_id(
                environ,
            ) is None
        }),
{
    text::decimal_round_trip(number as nat);
    vstd::utf8::encode_utf8_decode_utf8(text::decimal(number as nat));
    vstd::utf8::encode_utf8_valid_utf8(text::decimal(number as nat));
}

/// A process is a game where Steam, Proton or GameMode started it, its name is
/// text of 256 bytes at most, and it is neither a helper nor part of the
/// program.
pub proof fn started_games_are_found(
    pid: u32,
    executable: Seq<u8>,
    comm: Seq<u8>,
    environ: Seq<u8>,
)
    requires
        comm.len() <= 256,
        vstd::utf8::valid_utf8(comm),
        text::trimmed(vstd::utf8::decode_utf8(comm)).len() > 0,
        environ.len() <= 65_536,
        !left_out(text::trimmed(vstd::utf8::decode_utf8(comm)), executable),
        environment_app_id(environ) is Some || variable(
            environ,
            "STEAM_COMPAT_DATA_PATH".spec_bytes(),
        ) is Some || variable(environ, "GAMEMODERUNEXEC".spec_bytes()) is Some,
    ensures
        game_of(pid, executable, comm, environ) == Some(
            ProcessView {
                pid,
                comm: text::trimmed(vstd::utf8::decode_utf8(comm)),
                executable,
                steam_app_id: environment_app_id(environ),
                game_mode_active: variable(environ, "GAMEMODERUNEXEC".spec_bytes()) is Some,
            },
        ),
{
}

/// Programs that only help games to run are no games, nor is any part of the
/// program itself, by either of their names and in any letter case.
pub proof fn helpers_are_no_games(
    pid: u32,
    executable: Seq<u8>,
    comm: Seq<u8>,
    environ: Seq<u8>,
    name: Seq<char>,
    rest: Seq<char>,
)
    requires
        name == text::trimmed(vstd::utf8::decode_utf8(comm)) || name == executable_name(executable),
        text::alike(name, "steam"@) || text::alike(name, "steam.sh"@) || text::alike(
            name,
            "bin_steam.sh"@,
        ) || text::alike(name, "steamwebhelper"@) || text::alike(name, "steam-runtime"@)
            || text::alike(name, "steam-runtime-steam-remote"@) || text::alike(
            name,
            "pressure-vessel"@,
        ) || text::alike(name, "pv-bwrap"@) || text::alike(name, "reaper"@) || text::alike(
            name,
            "wineserver"@,
        ) || text::alike(name, "gamemoderun"@) || text::alike(name, "mangohud"@) || name
            == "redunar"@ + rest || name == "Redunar"@ + rest,
    ensures
        game_of(pid, executable, comm, environ) is None,
{
    reveal_strlit("redunar");
    reveal_strlit("Redunar");
    if name == "redunar"@ + rest {
        assert(name.take(7) =~= "redunar"@);
        text::lemma_alike_by_place("redunar"@, "redunar"@);
    }
    if name == "Redunar"@ + rest {
        assert(name.take(7) =~= "Redunar"@);
        text::lemma_alike_by_place("Redunar"@, "redunar"@);
    }
}

/// How much of the process table is looked at.
pub proof fn process_scans_are_bounded()
    ensures
        MAX_PROC_ENTRIES_PER_SCAN == 32 * 1_024,
        MAX_DETECTED_GAMES == 256,
{
}

/// A process is found under its number.
pub proof fn processes_are_found_under_their_number(pid: u32)
    ensures
        entry_pid(vstd::utf8::encode_utf8(text::decimal(pid as nat))) == Some(pid),
{
    text::decimal_round_trip(pid as nat);
    vstd::utf8::encode_utf8_decode_utf8(text::decimal(pid as nat));
    vstd::utf8::encode_utf8_valid_utf8(text::decimal(pid as nat));
}

} // verus!
