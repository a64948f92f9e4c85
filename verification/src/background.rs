//! Background processes that disturb games, and their priorities.
use crate::path_map;
use crate::text;
use vstd::prelude::*;
use vstd::string::*;

verus! {

broadcast use vstd::string::group_string_axioms;

/// How many disturbing processes are listed.
pub const MAX_KNOWN_INTERFERERS: usize = 32;

#[derive(Clone, Debug, PartialEq, Eq)]
pub struct BackgroundLoad {
    pub process_count: u32,
    pub known_interferers: Vec<String>,
    pub known_pids: Vec<(i32, String)>,
}

/// What a [`BackgroundLoad`] holds.
#[verifier::ext_equal]
pub ghost struct LoadView {
    pub process_count: u32,
    pub interferers: Seq<Seq<char>>,
    pub pids: Seq<(i32, Seq<char>)>,
}

pub open spec fn name_views(names: Seq<String>) -> Seq<Seq<char>> {
    names.map_values(|name: String| name@)
}

pub open spec fn pid_views(pids: Seq<(i32, String)>) -> Seq<(i32, Seq<char>)> {
    pids.map_values(|entry: (i32, String)| (entry.0, entry.1@))
}

impl View for BackgroundLoad {
    type V = LoadView;

    open spec fn view(&self) -> LoadView {
        LoadView {
            process_count: self.process_count,
            interferers: name_views(self.known_interferers@),
            pids: pid_views(self.known_pids@),
        }
    }
}

impl Default for BackgroundLoad {
    fn default() -> (result: Self)
        ensures
            result@ == (LoadView {
                process_count: 0,
                interferers: Seq::empty(),
                pids: Seq::empty(),
            }),
    {
        let load = BackgroundLoad {
            process_count: 0,
            known_interferers: Vec::new(),
            known_pids: Vec::new(),
        };
        assert(load@.interferers =~= Seq::<Seq<char>>::empty());
        assert(load@.pids =~= Seq::<(i32, Seq<char>)>::empty());
        load
    }
}

/// Whether a process name is known to disturb games.
pub open spec fn disturbs(comm: Seq<char>) -> bool {
    text::alike(comm, "firefox"@) || text::alike(comm, "chrome"@) || text::alike(comm, "chromium"@)
        || text::alike(comm, "steamwebhelper"@) || text::alike(comm, "baloo_file"@) || text::alike(
        comm,
        "tracker-miner-f"@,
    )
}

/// Whether a directory of the process list stands for a process.
pub open spec fn names_process(name: Seq<char>) -> bool {
    forall|i: int| 0 <= i < name.len() ==> text::is_digit(#[trigger] name[i])
}

/// A load after one entry of the process list, with the process's name where
/// it could be read.
pub open spec fn observed(load: LoadView, entry: Seq<char>, comm: Option<Seq<char>>) -> LoadView {
    if !names_process(entry) {
        load
    } else {
        let counted = LoadView {
            process_count: if load.process_count == u32::MAX {
                u32::MAX
            } else {
                (load.process_count + 1) as u32
            },
            ..load
        };
        match comm {
            None => counted,
            Some(comm) => {
                let name = text::trimmed(comm);
                if disturbs(name) && load.interferers.len() < MAX_KNOWN_INTERFERERS {
                    LoadView {
                        interferers: load.interferers.push(name),
                        pids: match text::parsed_decimal(entry, 0x7fff_ffff) {
                            Some(pid) => load.pids.push((pid as i32, name)),
                            None => load.pids,
                        },
                        ..counted
                    }
                } else {
                    counted
                }
            },
        }
    }
}

fn is_process_entry(entry: &[char]) -> (result: bool)
    ensures
        result == names_process(entry@),
{
    let mut index: usize = 0;
    while index < entry.len()
        invariant
            index <= entry@.len(),
            forall|i: int| 0 <= i < index ==> text::is_digit(#[trigger] entry@[i]),
        decreases entry@.len() - index,
    {
        if entry[index] < '0' || entry[index] > '9' {
            assert(!text::is_digit(entry@[index as int]));
            return false;
        }
        index = index + 1;
    }
    true
}

fn is_interferer(comm: &[char]) -> (result: bool)
    ensures
        result == disturbs(comm@),
{
    text::eq_ignore_ascii_case(comm, "firefox") || text::eq_ignore_ascii_case(comm, "chrome")
        || text::eq_ignore_ascii_case(comm, "chromium") || text::eq_ignore_ascii_case(
        comm,
        "steamwebhelper",
    ) || text::eq_ignore_ascii_case(comm, "baloo_file") || text::eq_ignore_ascii_case(
        comm,
        "tracker-miner-f",
    )
}

/// Whether a name comes before another in the order of their bytes.
pub open spec fn name_before(left: Seq<char>, right: Seq<char>) -> bool {
    path_map::bytes_before(vstd::utf8::encode_utf8(left), vstd::utf8::encode_utf8(right))
}

/// Whether names are in order, none of them twice.
pub open spec fn in_name_order(names: Seq<Seq<char>>) -> bool {
    forall|i: int, j: int|
        0 <= i < j < names.len() ==> name_before(#[trigger] names[i], #[trigger] names[j])
}

impl BackgroundLoad {
    /// Takes one entry of the process list into account.
    pub fn observe_process(&mut self, entry: &str, comm: Option<&str>)
        ensures
            final(self)@ == observed(
                old(self)@,
                entry@,
                match comm {
                    Some(comm) => Some(comm@),
                    None => None,
                },
            ),
    {
        let chars = text::chars_of(entry);
        if !is_process_entry(chars.as_slice()) {
            return;
        }
        self.process_count = self.process_count.saturating_add(1);
        if let Some(comm) = comm {
            let comm_chars = text::chars_of(comm);
            let name = text::trim(comm_chars.as_slice());
            if is_interferer(name.as_slice()) && self.known_interferers.len()
                < MAX_KNOWN_INTERFERERS {
                let ghost names = name_views(self.known_interferers@);
                let ghost pids = pid_views(self.known_pids@);
                self.known_interferers.push(text::string_of(name.as_slice()));
                assert(name_views(self.known_interferers@) =~= names.push(name@));
                if let Some(pid) = text::parse_decimal(chars.as_slice(), 0x7fff_ffff) {
                    self.known_pids.push((pid as i32, text::string_of(name.as_slice())));
                    assert(pid_views(self.known_pids@) =~= pids.push((pid as i32, name@)));
                }
            }
        }
    }

    /// Puts the names of the disturbing processes in order, each once.
    pub fn finish(&mut self)
        ensures
            final(self)@.process_count == old(self)@.process_count,
            final(self)@.pids == old(self)@.pids,
            in_name_order(final(self)@.interferers),
            forall|name: Seq<char>|
                final(self)@.interferers.contains(name) <==> old(self)@.interferers.contains(name),
    {
        let ghost given = name_views(self.known_interferers@);
        let mut sorted: Vec<String> = Vec::new();
        let mut index: usize = 0;
        while index < self.known_interferers.len()
            invariant
                index <= self.known_interferers@.len(),
                given == name_views(self.known_interferers@),
                self.process_count == old(self).process_count,
                self.known_pids == old(self).known_pids,
                in_name_order(name_views(sorted@)),
                forall|name: Seq<char>|
                    name_views(sorted@).contains(name) <==> given.take(index as int).contains(name),
            decreases self.known_interferers@.len() - index,
        {
            let ghost before = name_views(sorted@);
            let name = self.known_interferers[index].as_str();
            insert_name(&mut sorted, name);
            proof {
                let earlier = given.take(index as int);
                let now = given.take(index + 1);
                assert(now =~= earlier.push(name@));
                assert forall|other: Seq<char>|
                    name_views(sorted@).contains(other) <==> now.contains(other) by {
                    assert(now[index as int] == name@);
                    if earlier.contains(other) {
                        let i = choose|i: int| 0 <= i < earlier.len() && earlier[i] == other;
                        assert(now[i] == other);
                    }
                    if now.contains(other) {
                        let i = choose|i: int| 0 <= i < now.len() && now[i] == other;
                        if i < index {
                            assert(earlier[i] == other);
                        }
                    }
                }
            }
            index = index + 1;
        }
        assert(given.take(index as int) =~= given);
        self.known_interferers = sorted;
    }
}

fn insert_name(names: &mut Vec<String>, name: &str)
    requires
        in_name_order(name_views(old(names)@)),
    ensures
        in_name_order(name_views(final(names)@)),
        forall|other: Seq<char>|
            name_views(final(names)@).contains(other) <==> (name_views(old(names)@).contains(other)
                || other == name@),
{
    let ghost before = name_views(names@);
    let mut at: usize = 0;
    while at < names.len() && path_map::is_bytes_before(
        names[at].as_str().as_bytes(),
        name.as_bytes(),
    )
        invariant
            at <= names@.len(),
            before == name_views(names@),
            forall|i: int| 0 <= i < at ==> name_before(#[trigger] before[i], name@),
        decreases names@.len() - at,
    {
        assert(before[at as int] == names@[at as int]@);
        at = at + 1;
    }
    if at < names.len() && text::same_text(names[at].as_str(), name) {
        assert(before[at as int] == name@);
        assert(before.contains(name@));
        return;
    }
    proof {
        if at < names@.len() {
            assert(before[at as int] == names@[at as int]@);
            lemma_names_total(before[at as int], name@);
            assert forall|j: int| at <= j < before.len() implies name_before(
                name@,
                #[trigger] before[j],
            ) by {
                if j > at {
                    assert(name_before(before[at as int], before[j]));
                    path_map::lemma_bytes_transitive(
                        vstd::utf8::encode_utf8(name@),
                        vstd::utf8::encode_utf8(before[at as int]),
                        vstd::utf8::encode_utf8(before[j]),
                    );
                }
            }
        }
    }
    names.insert(at, name.to_owned());
    proof {
        let now = name_views(names@);
        assert(now =~= before.insert(at as int, name@));
        assert forall|i: int, j: int| 0 <= i < j < now.len() implies name_before(
            #[trigger] now[i],
            #[trigger] now[j],
        ) by {
            if i < at {
                assert(now[i] == before[i]);
            } else if i > at {
                assert(now[i] == before[i - 1]);
            }
            if j < at {
                assert(now[j] == before[j]);
            } else if j > at {
                assert(now[j] == before[j - 1]);
            }
        }
        assert forall|other: Seq<char>| now.contains(other) <==> (before.contains(other) || other
            == name@) by {
            assert(now[at as int] == name@);
            if before.contains(other) {
                let i = choose|i: int| 0 <= i < before.len() && before[i] == other;
                if i < at {
                    assert(now[i] == other);
                } else {
                    assert(now[i + 1] == other);
                }
            }
            if now.contains(other) {
                let i = choose|i: int| 0 <= i < now.len() && now[i] == other;
                if i < at {
                    assert(before[i] == other);
                } else if i > at {
                    assert(before[i - 1] == other);
                }
            }
        }
    }
}

proof fn lemma_names_total(left: Seq<char>, right: Seq<char>)
    ensures
        left != right ==> name_before(left, right) || name_before(right, left),
{
    path_map::lemma_bytes_total(vstd::utf8::encode_utf8(left), vstd::utf8::encode_utf8(right));
    vstd::utf8::encode_utf8_decode_utf8(left);
    vstd::utf8::encode_utf8_decode_utf8(right);
}

/// A load after some entries of the process list.
pub open spec fn all_observed(entries: Seq<(String, Option<String>)>) -> LoadView
    decreases entries.len(),
{
    if entries.len() == 0 {
        LoadView { process_count: 0, interferers: Seq::empty(), pids: Seq::empty() }
    } else {
        let (entry, comm) = entries.last();
        observed(
            all_observed(entries.drop_last()),
            entry@,
            match comm {
                Some(comm) => Some(comm@),
                None => None,
            },
        )
    }
}

/// The load that a whole process list stands for: its directories, each with
/// the process's name where it could be read.
pub fn observe_background_load(entries: &[(String, Option<String>)]) -> (result: BackgroundLoad)
    ensures
        result@.process_count == all_observed(entries@).process_count,
        result@.pids == all_observed(entries@).pids,
        in_name_order(result@.interferers),
        forall|name: Seq<char>|
            result@.interferers.contains(name) <==> all_observed(entries@).interferers.contains(
                name,
            ),
{
    let mut load = BackgroundLoad::default();
    let mut index: usize = 0;
    while index < entries.len()
        invariant
            index <= entries@.len(),
            load@ == all_observed(entries@.take(index as int)),
        decreases entries@.len() - index,
    {
        assert(entries@.take(index + 1).drop_last() =~= entries@.take(index as int));
        assert(entries@.take(index + 1).last() == entries@[index as int]);
        let entry = &entries[index];
        match &entry.1 {
            Some(comm) => load.observe_process(entry.0.as_str(), Some(comm.as_str())),
            None => load.observe_process(entry.0.as_str(), None),
        }
        index = index + 1;
    }
    assert(entries@.take(index as int) =~= entries@);
    load.finish();
    load
}

/// The priority that disturbing processes get.
pub const LOWERED_PRIORITY: i32 = 5;

/// The priorities to give back.
#[derive(Debug)]
pub struct BackgroundCoordinator {
    restored: Vec<(i32, i32)>,
}

impl View for BackgroundCoordinator {
    type V = Seq<(i32, i32)>;

    closed spec fn view(&self) -> Seq<(i32, i32)> {
        self.restored@
    }
}

impl Default for BackgroundCoordinator {
    fn default() -> (result: Self)
        ensures
            result@ == Seq::<(i32, i32)>::empty(),
    {
        BackgroundCoordinator { restored: Vec::new() }
    }
}

/// What came of lowering one process.
#[derive(Clone, Copy, Debug, PartialEq, Eq, Structural)]
pub struct LoweredProcess {
    pub pid: i32,
    /// The priority before, where it could be read.
    pub previous: Option<i32>,
    /// Whether the lower priority was applied.
    pub applied: bool,
}

/// The priorities to give back for some processes.
pub open spec fn priorities_before(processes: Seq<LoweredProcess>) -> Seq<(i32, i32)>
    decreases processes.len(),
{
    if processes.len() == 0 {
        Seq::empty()
    } else {
        let before = priorities_before(processes.drop_last());
        match processes.last().previous {
            Some(previous) => if processes.last().applied {
                before.push((processes.last().pid, previous))
            } else {
                before
            },
            None => before,
        }
    }
}

impl BackgroundCoordinator {
    /// Remembers the priorities of the processes that were lowered.
    pub fn lower_known_processes(&mut self, processes: &[LoweredProcess])
        ensures
            final(self)@ == old(self)@ + priorities_before(processes@),
    {
        let mut index: usize = 0;
        assert(self.restored@ =~= old(self)@ + priorities_before(processes@.take(0)));
        while index < processes.len()
            invariant
                index <= processes@.len(),
                self.restored@ == old(self)@ + priorities_before(processes@.take(index as int)),
            decreases processes@.len() - index,
        {
            let ghost held = self.restored@;
            assert(processes@.take(index + 1).drop_last() =~= processes@.take(index as int));
            assert(processes@.take(index + 1).last() == processes@[index as int]);
            let process = processes[index];
            if let Some(previous) = process.previous {
                if process.applied {
                    self.restored.push((process.pid, previous));
                    assert(self.restored@ =~= held.push((process.pid, previous)));
                }
            }
            index = index + 1;
            assert(self.restored@ =~= old(self)@ + priorities_before(
                processes@.take(index as int),
            ));
        }
        assert(processes@.take(index as int) =~= processes@);
    }

    /// The priorities to give back now, in the order they were lowered. Each
    /// is handed out once.
    pub fn restore(&mut self) -> (result: Vec<(i32, i32)>)
        ensures
            result@ == old(self)@,
            final(self)@ == Seq::<(i32, i32)>::empty(),
    {
        let mut priorities: Vec<(i32, i32)> = Vec::new();
        std::mem::swap(&mut priorities, &mut self.restored);
        assert(self.restored@ =~= Seq::<(i32, i32)>::empty());
        priorities
    }
}

/// The list of disturbing processes is bounded, whatever the process list
/// holds, and so is the list of their identifiers.
pub proof fn interferers_are_bounded(entries: Seq<(String, Option<String>)>)
    ensures
        all_observed(entries).interferers.len() <= MAX_KNOWN_INTERFERERS,
        all_observed(entries).pids.len() <= all_observed(entries).interferers.len(),
    decreases entries.len(),
{
    if entries.len() > 0 {
        interferers_are_bounded(entries.drop_last());
    }
}

/// A process with the name of a browser, of Steam's browser or of a file
/// indexer, in any letter case and with any space around it, is listed with its
/// number until 32 are. A process with another name is only counted.
pub proof fn disturbing_processes_are_listed(load: LoadView, pid: nat, comm: Seq<char>)
    requires
        pid <= 2_147_483_647,
    ensures
        ({
            let name = text::trimmed(comm);
            let known = text::alike(name, "firefox"@) || text::alike(name, "chrome"@)
                || text::alike(name, "chromium"@) || text::alike(name, "steamwebhelper"@)
                || text::alike(name, "baloo_file"@) || text::alike(name, "tracker-miner-f"@);
            let next = observed(load, text::decimal(pid), Some(comm));
            &&& load.process_count < u32::MAX ==> next.process_count == load.process_count + 1
            &&& known && load.interferers.len() < 32 ==> next.interferers
                == load.interferers.push(name) && next.pids == load.pids.push((pid as i32, name))
            &&& !known || load.interferers.len() >= 32 ==> next.interferers == load.interferers
                && next.pids == load.pids
        }),
{
    text::decimal_round_trip(pid);
    assert(names_process(text::decimal(pid)));
}

/// Only a directory whose name is a number stands for a process.
pub proof fn other_directories_are_passed_over(
    load: LoadView,
    entry: Seq<char>,
    comm: Option<Seq<char>>,
    at: int,
)
    requires
        0 <= at < entry.len(),
        !('0' <= entry[at] <= '9'),
    ensures
        observed(load, entry, comm) == load,
{
    assert(!text::is_digit(entry[at]));
}

/// Every process that was lowered, and no other, gets the priority back that it
/// had, in the order in which they were lowered.
pub proof fn lowered_priorities_are_given_back(processes: Seq<LoweredProcess>)
    ensures
        priorities_before(processes) == processes.filter(
            |process: LoweredProcess| process.applied && process.previous is Some,
        ).map_values(|process: LoweredProcess| (process.pid, process.previous->0)),
    decreases processes.len(),
{
    reveal(Seq::filter);
    let lowered = |process: LoweredProcess| process.applied && process.previous is Some;
    let priority = |process: LoweredProcess| (process.pid, process.previous->0);
    if processes.len() > 0 {
        let shorter = processes.drop_last();
        lowered_priorities_are_given_back(shorter);
        assert(priorities_before(shorter) == shorter.filter(lowered).map_values(priority));
        if lowered(processes.last()) {
            assert(processes.filter(lowered) =~= shorter.filter(lowered).push(processes.last()));
            assert(processes.filter(lowered).map_values(priority) =~= shorter.filter(
                lowered,
            ).map_values(priority).push(priority(processes.last())));
        } else {
            assert(processes.filter(lowered) =~= shorter.filter(lowered));
        }
    }
    assert(priorities_before(processes) =~= processes.filter(lowered).map_values(priority));
}

/// Processes that disturb games are lowered by five steps.
pub proof fn disturbing_processes_are_lowered()
    ensures
        LOWERED_PRIORITY == 5,
        crate::process_control::may_adjust(LOWERED_PRIORITY),
{
}

} // verus!
