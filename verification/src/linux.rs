//! Hardware identity and utilization from the kernel's reports.
use crate::nvidia_nvml;
use crate::nvidia_nvml::GpuSnapshot;
use crate::paths;
use crate::text;
use vstd::prelude::*;
use vstd::string::*;

verus! {

broadcast use vstd::string::group_string_axioms;

/// The name before the first colon of a line.
pub open spec fn line_key(line: Seq<char>) -> Option<Seq<char>> {
    match text::split_at_first(line, ':') {
        Some((key, _)) => Some(text::trimmed(key)),
        None => None,
    }
}

/// The value of the first line with a name.
pub open spec fn first_cpu_value(lines: Seq<Seq<char>>, key: Seq<char>) -> Option<Seq<char>>
    decreases lines.len(),
{
    if lines.len() == 0 {
        None
    } else {
        match text::split_at_first(lines[0], ':') {
            Some((name, value)) => if text::trimmed(name) == key {
                Some(text::trimmed(value))
            } else {
                first_cpu_value(lines.skip(1), key)
            },
            None => first_cpu_value(lines.skip(1), key),
        }
    }
}

/// How many lines have a name.
pub open spec fn count_of_key(lines: Seq<Seq<char>>, key: Seq<char>) -> nat
    decreases lines.len(),
{
    if lines.len() == 0 {
        0
    } else {
        count_of_key(lines.drop_last(), key) + (if line_key(lines.last()) == Some(key) {
            1nat
        } else {
            0nat
        })
    }
}

fn find_value(lines: &Vec<Vec<char>>, key: &str) -> (result: Option<Vec<char>>)
    ensures
        match result {
            Some(value) => first_cpu_value(text::views(lines@), key@) == Some(value@),
            None => first_cpu_value(text::views(lines@), key@) is None,
        },
{
    let ghost all = text::views(lines@);
    let mut index: usize = 0;
    assert(all.skip(0) =~= all);
    while index < lines.len()
        invariant
            index <= lines@.len(),
            all == text::views(lines@),
            first_cpu_value(all, key@) == first_cpu_value(all.skip(index as int), key@),
        decreases lines@.len() - index,
    {
        assert(all.skip(index as int)[0] == lines@[index as int]@);
        assert(all.skip(index as int).skip(1) =~= all.skip(index + 1));
        if let Some((name, value)) = text::split_once(lines[index].as_slice(), ':') {
            let name = text::trim(name.as_slice());
            if text::spells(name.as_slice(), key) {
                return Some(text::trim(value.as_slice()));
            }
        }
        index = index + 1;
    }
    None
}

/// The value of the first line with a name in the kernel's report.
pub fn first_cpuinfo_value(cpuinfo: &str, key: &str) -> (result: Option<String>)
    ensures
        match result {
            Some(value) => first_cpu_value(text::lines_of(cpuinfo@), key@) == Some(value@),
            None => first_cpu_value(text::lines_of(cpuinfo@), key@) is None,
        },
{
    let chars = text::chars_of(cpuinfo);
    let lines = text::split_lines(chars.as_slice());
    match find_value(&lines, key) {
        Some(value) => Some(text::string_of(value.as_slice())),
        None => None,
    }
}

/// The processor as the kernel identifies it.
#[derive(Clone, Debug, PartialEq, Eq)]
pub struct CpuIdentity {
    pub vendor: String,
    pub model: String,
    pub logical_cpus: usize,
}

/// The vendor, the model and the number of processors that a description gives.
pub open spec fn described_cpu(cpuinfo: Seq<char>) -> (Seq<char>, Seq<char>, nat) {
    let lines = text::lines_of(cpuinfo);
    (
        match first_cpu_value(lines, "vendor_id"@) {
            Some(vendor) => vendor,
            None => "Unknown"@,
        },
        match first_cpu_value(lines, "model name"@) {
            Some(model) => model,
            None => "Unknown CPU"@,
        },
        count_of_key(lines, "processor"@),
    )
}

/// Identifies the processor.
pub fn cpu_identity(cpuinfo: &str) -> (result: CpuIdentity)
    ensures
        (result.vendor@, result.model@, result.logical_cpus as nat) == described_cpu(cpuinfo@),
        ({
            let lines = text::lines_of(cpuinfo@);
            &&& result.vendor@ == (match first_cpu_value(lines, "vendor_id"@) {
                Some(vendor) => vendor,
                None => "Unknown"@,
            })
            &&& result.model@ == (match first_cpu_value(lines, "model name"@) {
                Some(model) => model,
                None => "Unknown CPU"@,
            })
            &&& result.logical_cpus == count_of_key(lines, "processor"@)
        }),
{
    let chars = text::chars_of(cpuinfo);
    let lines = text::split_lines(chars.as_slice());
    let ghost all = text::views(lines@);
    let vendor = match find_value(&lines, "vendor_id") {
        Some(vendor) => text::string_of(vendor.as_slice()),
        None => "Unknown".to_owned(),
    };
    let model = match find_value(&lines, "model name") {
        Some(model) => text::string_of(model.as_slice()),
        None => "Unknown CPU".to_owned(),
    };
    let mut logical_cpus: usize = 0;
    let mut index: usize = 0;
    while index < lines.len()
        invariant
            logical_cpus <= index <= lines@.len(),
            all == text::views(lines@),
            logical_cpus == count_of_key(all.take(index as int), "processor"@),
        decreases lines@.len() - index,
    {
        assert(all.take(index + 1).drop_last() =~= all.take(index as int));
        assert(all.take(index + 1).last() == lines@[index as int]@);
        if let Some((name, _)) = text::split_once(lines[index].as_slice(), ':') {
            let name = text::trim(name.as_slice());
            if text::spells(name.as_slice(), "processor") {
                logical_cpus = logical_cpus + 1;
            }
        }
        index = index + 1;
    }
    assert(all.take(index as int) =~= all);
    CpuIdentity { vendor, model, logical_cpus }
}

/// How long the processors were in each state since the system started:
/// user, nice, system, idle, waiting, interrupts, soft interrupts and stolen.
#[derive(Debug)]
pub struct CpuTimes {
    counters: Vec<u64>,
}

impl View for CpuTimes {
    type V = Seq<u64>;

    closed spec fn view(&self) -> Seq<u64> {
        self.counters@
    }
}

/// All time.
pub open spec fn total_time(counters: Seq<u64>) -> int {
    counters[0] + counters[1] + counters[2] + counters[3] + counters[4] + counters[5] + counters[6]
        + counters[7]
}

/// Time without work: idle, or waiting for a device.
pub open spec fn idle_time(counters: Seq<u64>) -> int {
    counters[3] + counters[4]
}

/// Whether counters are eight and their sum is a machine number.
pub open spec fn are_times(counters: Seq<u64>) -> bool {
    counters.len() == 8 && total_time(counters) <= u64::MAX
}

/// Whether a line is the one over all processors.
pub open spec fn is_aggregate(line: Seq<char>) -> bool {
    match text::after_prefix(line, "cpu"@) {
        Some(rest) => rest.len() > 0 && text::is_space(rest[0]),
        None => false,
    }
}

/// The first line over all processors.
pub open spec fn aggregate_line(lines: Seq<Seq<char>>) -> Option<Seq<char>>
    decreases lines.len(),
{
    if lines.len() == 0 {
        None
    } else if is_aggregate(lines[0]) {
        Some(lines[0])
    } else {
        aggregate_line(lines.skip(1))
    }
}

/// A counter behind the name of a line. Older kernels leave out the last
/// four.
pub open spec fn counter_at(words: Seq<Seq<char>>, index: int) -> Option<nat> {
    if index + 1 < words.len() {
        text::parsed_decimal(words[index + 1], u64::MAX as nat)
    } else if index >= 4 {
        Some(0)
    } else {
        None
    }
}

/// The counters of a line, as far as each can be read.
pub open spec fn counters_of(words: Seq<Seq<char>>, count: nat) -> Option<Seq<u64>>
    decreases count,
{
    if count == 0 {
        Some(Seq::empty())
    } else {
        match (counters_of(words, (count - 1) as nat), counter_at(words, count - 1)) {
            (Some(before), Some(counter)) => Some(before.push(counter as u64)),
            _ => None,
        }
    }
}

/// The times that the kernel's report states.
pub open spec fn stated_times(stat: Seq<char>) -> Option<Seq<u64>> {
    match aggregate_line(text::lines_of(stat)) {
        None => None,
        Some(line) => {
            let words = text::words_of(line);
            if words.len() == 0 || words[0] != "cpu"@ {
                None
            } else {
                match counters_of(words, 8) {
                    Some(counters) => if are_times(counters) {
                        Some(counters)
                    } else {
                        None
                    },
                    None => None,
                }
            }
        },
    }
}

proof fn lemma_counters(words: Seq<Seq<char>>, count: nat)
    ensures
        counters_of(words, count) matches Some(counters) ==> counters.len() == count,
    decreases count,
{
    if count > 0 {
        lemma_counters(words, (count - 1) as nat);
    }
}

proof fn lemma_no_counters(words: Seq<Seq<char>>, count: nat, more: nat)
    requires
        count <= more,
        counters_of(words, count) is None,
    ensures
        counters_of(words, more) is None,
    decreases more,
{
    if count < more {
        lemma_no_counters(words, count, (more - 1) as nat);
    }
}

fn find_aggregate(lines: Vec<Vec<char>>) -> (result: Option<Vec<char>>)
    ensures
        match result {
            Some(line) => aggregate_line(text::views(lines@)) == Some(line@),
            None => aggregate_line(text::views(lines@)) is None,
        },
{
    let ghost all = text::views(lines@);
    let mut index: usize = 0;
    assert(all.skip(0) =~= all);
    while index < lines.len()
        invariant
            index <= lines@.len(),
            all == text::views(lines@),
            aggregate_line(all) == aggregate_line(all.skip(index as int)),
        decreases lines@.len() - index,
    {
        assert(all.skip(index as int)[0] == lines@[index as int]@);
        assert(all.skip(index as int).skip(1) =~= all.skip(index + 1));
        if let Some(rest) = text::strip_prefix(lines[index].as_slice(), "cpu") {
            if rest.len() > 0 && text::is_whitespace(rest[0]) {
                return Some(vstd::slice::slice_to_vec(lines[index].as_slice()));
            }
        }
        index = index + 1;
    }
    None
}

fn read_counters(words: &Vec<Vec<char>>) -> (result: Option<Vec<u64>>)
    ensures
        match result {
            Some(counters) => counters_of(text::views(words@), 8) == Some(counters@)
                && counters@.len() == 8,
            None => counters_of(text::views(words@), 8) is None,
        },
{
    let ghost all = text::views(words@);
    let mut counters: Vec<u64> = Vec::new();
    let mut index: usize = 0;
    assert(counters@ =~= Seq::<u64>::empty());
    while index < 8
        invariant
            index <= 8,
            counters@.len() == index,
            all == text::views(words@),
            counters_of(all, index as nat) == Some(counters@),
        decreases 8 - index,
    {
        let value: Option<u64> = if index + 1 < words.len() {
            assert(all[index + 1] == words@[index + 1]@);
            text::parse_decimal(words[index + 1].as_slice(), u64::MAX)
        } else if index >= 4 {
            Some(0)
        } else {
            None
        };
        match value {
            Some(value) => {
                counters.push(value);
            },
            None => {
                proof {
                    lemma_no_counters(all, (index + 1) as nat, 8);
                }
                return None;
            },
        }
        index = index + 1;
    }
    Some(counters)
}

fn add_times(counters: &Vec<u64>) -> (result: Option<u64>)
    requires
        counters@.len() == 8,
    ensures
        match result {
            Some(total) => are_times(counters@) && total == total_time(counters@),
            None => !are_times(counters@),
        },
{
    let total: u128 = counters[0] as u128 + counters[1] as u128 + counters[2] as u128
        + counters[3] as u128 + counters[4] as u128 + counters[5] as u128 + counters[6] as u128
        + counters[7] as u128;
    if total <= u64::MAX as u128 {
        Some(total as u64)
    } else {
        None
    }
}

/// Reads the times over all processors.
pub fn parse_cpu_times(stat: &str) -> (result: Option<CpuTimes>)
    ensures
        match result {
            Some(times) => stated_times(stat@) == Some(times@),
            None => stated_times(stat@) is None,
        },
{
    let chars = text::chars_of(stat);
    let lines = text::split_lines(chars.as_slice());
    let line = match find_aggregate(lines) {
        Some(line) => line,
        None => {
            return None;
        },
    };
    let words = text::split_words(line.as_slice());
    let ghost all = text::views(words@);
    if words.len() == 0 {
        return None;
    }
    assert(all[0] == words@[0]@);
    if !text::spells(words[0].as_slice(), "cpu") {
        return None;
    }
    match read_counters(&words) {
        Some(counters) => {
            if add_times(&counters).is_none() {
                return None;
            }
            Some(CpuTimes { counters })
        },
        None => None,
    }
}

/// Busy and total time between two readings, unless a counter went back,
/// nothing passed, or too much passed for an exact quotient.
pub open spec fn time_between(previous: Seq<u64>, current: Seq<u64>) -> Option<(u32, u32)> {
    let total = total_time(current) - total_time(previous);
    let idle = idle_time(current) - idle_time(previous);
    if (exists|i: int| 0 <= i < 8 && #[trigger] current[i] < previous[i]) || total == 0 || total
        > u32::MAX {
        None
    } else {
        Some(((total - idle) as u32, total as u32))
    }
}

/// Utilization since the reading before. A quotient of the two numbers it
/// gives is the share of busy time.
#[derive(Debug)]
pub struct LinuxCpuUtilizationSampler {
    previous: Option<CpuTimes>,
}

impl View for LinuxCpuUtilizationSampler {
    type V = Option<Seq<u64>>;

    closed spec fn view(&self) -> Option<Seq<u64>> {
        match self.previous {
            Some(times) => Some(times@),
            None => None,
        }
    }
}

proof fn lemma_stated_times(stat: Seq<char>)
    ensures
        stated_times(stat) matches Some(times) ==> are_times(times),
{
}

fn went_back(previous: &Vec<u64>, current: &Vec<u64>) -> (result: bool)
    requires
        previous@.len() == 8,
        current@.len() == 8,
    ensures
        result == exists|i: int| 0 <= i < 8 && #[trigger] current@[i] < previous@[i],
{
    let mut index: usize = 0;
    while index < 8
        invariant
            index <= 8,
            previous@.len() == 8,
            current@.len() == 8,
            forall|i: int| 0 <= i < index ==> #[trigger] current@[i] >= previous@[i],
        decreases 8 - index,
    {
        if current[index] < previous[index] {
            assert(current@[index as int] < previous@[index as int]);
            return true;
        }
        index = index + 1;
    }
    false
}

fn between(previous: &Vec<u64>, current: &Vec<u64>) -> (result: Option<(u32, u32)>)
    requires
        are_times(previous@),
        are_times(current@),
    ensures
        result == time_between(previous@, current@),
{
    if went_back(previous, current) {
        return None;
    }
    assert(forall|i: int| 0 <= i < 8 ==> #[trigger] current@[i] >= previous@[i]);
    match (add_times(previous), add_times(current)) {
        (Some(before), Some(after)) => {
            let total: u64 = after - before;
            if total == 0 || total > u32::MAX as u64 {
                return None;
            }
            let idle: u64 = (current[3] - previous[3]) + (current[4] - previous[4]);
            Some(((total - idle) as u32, total as u32))
        },
        _ => None,
    }
}

impl LinuxCpuUtilizationSampler {
    #[verifier::type_invariant]
    spec fn coherent(self) -> bool {
        self.previous matches Some(times) ==> are_times(times@)
    }

    pub fn new() -> (result: Self)
        ensures
            result@ is None,
    {
        LinuxCpuUtilizationSampler { previous: None }
    }

    /// Busy and total time since the reading before. The first reading only
    /// sets the start. A malformed report changes nothing, and after counters
    /// went back the new reading is the start.
    pub fn sample(&mut self, stat: &str) -> (result: Option<(u32, u32)>)
        ensures
            match stated_times(stat@) {
                None => result is None && final(self)@ == old(self)@,
                Some(times) => final(self)@ == Some(times) && result == (match old(self)@ {
                    Some(previous) => time_between(previous, times),
                    None => None,
                }),
            },
    {
        proof {
            use_type_invariant(&*self);
            lemma_stated_times(stat@);
        }
        match parse_cpu_times(stat) {
            None => None,
            Some(times) => {
                let result: Option<(u32, u32)> = match &self.previous {
                    Some(previous) => between(&previous.counters, &times.counters),
                    None => None,
                };
                self.previous = Some(times);
                result
            },
        }
    }
}

/// The share of busy time lies between nothing and all.
pub proof fn utilization_is_a_share(previous: Seq<u64>, current: Seq<u64>)
    requires
        are_times(previous),
        are_times(current),
        time_between(previous, current) is Some,
    ensures
        time_between(previous, current) matches Some((busy, total)) && {
            &&& 0 < total
            &&& busy <= total
            &&& total == total_time(current) - total_time(previous)
            &&& busy == total - (idle_time(current) - idle_time(previous))
        },
{
    assert(forall|i: int| 0 <= i < 8 ==> !(#[trigger] current[i] < previous[i]));
    assert(current[0] >= previous[0] && current[1] >= previous[1] && current[2] >= previous[2]
        && current[3] >= previous[3] && current[4] >= previous[4] && current[5] >= previous[5]
        && current[6] >= previous[6] && current[7] >= previous[7]);
}

/// Whether a name is that of a graphics card, `card` with a number.
pub open spec fn card_name(name: Seq<u8>) -> bool {
    match text::after_prefix(name, "card".spec_bytes()) {
        Some(number) => number.len() > 0 && forall|i: int|
            0 <= i < number.len() ==> 48 <= #[trigger] number[i] <= 57,
        None => false,
    }
}

/// Whether a directory stands for a graphics card.
pub fn is_drm_card(name: &[u8], has_device: bool) -> (result: bool)
    ensures
        result == (card_name(name@) && has_device),
{
    let prefix = "card".as_bytes();
    let ghost expected = "card".spec_bytes();
    proof {
        reveal_strlit("card");
        assert("card".is_ascii());
    }
    if name.len() <= 4 || !has_device {
        return false;
    }
    let start = vstd::slice::slice_subrange(name, 0, 4);
    assert(start@ =~= name@.take(4));
    if !text::same_bytes(start, prefix) {
        return false;
    }
    let ghost number = name@.skip(4);
    let mut index: usize = 4;
    while index < name.len()
        invariant
            4 <= index <= name@.len(),
            number == name@.skip(4),
            expected == "card".spec_bytes(),
            expected.len() == 4,
            name@.take(4) == expected,
            forall|i: int| 0 <= i < index - 4 ==> 48 <= #[trigger] number[i] <= 57,
        decreases name@.len() - index,
    {
        if name[index] < 48 || name[index] > 57 {
            assert(number[index - 4] == name@[index as int]);
            return false;
        }
        assert(number[index - 4] == name@[index as int]);
        index = index + 1;
    }
    true
}

/// Whether readings of a vendor's cards are supported.
pub open spec fn supported_vendor(vendor_id: Seq<char>) -> bool {
    text::alike(text::without_hex_mark(vendor_id), "1002"@)
}

pub fn is_supported_gpu_vendor(vendor_id: &str) -> (result: bool)
    ensures
        result == supported_vendor(vendor_id@),
{
    let chars = text::chars_of(vendor_id);
    let id = text::trim_hex_mark(chars.as_slice());
    text::eq_ignore_ascii_case(id.as_slice(), "1002")
}

pub open spec fn any_nvidia(vendors: Seq<Option<String>>) -> bool {
    exists|i: int|
        0 <= i < vendors.len() && (#[trigger] vendors[i] matches Some(vendor)
            && nvidia_nvml::nvidia_vendor(vendor@))
}

/// Whether cards of some vendors are shown.
pub open spec fn cards_shown(vendors: Seq<Option<String>>, allow_nvidia_beta: bool) -> bool {
    !(allow_nvidia_beta && any_nvidia(vendors) && vendors.len() != 1)
}

/// Whether cards are shown. With an NVIDIA card among several, nothing tells
/// which one a game runs on, so that none is shown.
pub fn shows_cards(vendors: &[Option<String>], allow_nvidia_beta: bool) -> (result: bool)
    ensures
        result == cards_shown(vendors@, allow_nvidia_beta),
        result == !(allow_nvidia_beta && any_nvidia(vendors@) && vendors@.len() != 1),
{
    if !allow_nvidia_beta || vendors.len() == 1 {
        return true;
    }
    let mut index: usize = 0;
    while index < vendors.len()
        invariant
            index <= vendors@.len(),
            vendors@.len() != 1,
            allow_nvidia_beta,
            forall|i: int|
                0 <= i < index ==> !(#[trigger] vendors@[i] matches Some(vendor)
                    && nvidia_nvml::nvidia_vendor(vendor@)),
        decreases vendors@.len() - index,
    {
        if let Some(vendor) = &vendors[index] {
            if nvidia_nvml::is_nvidia_vendor(vendor.as_str()) {
                assert(vendors@[index as int] is Some);
                return false;
            }
        }
        index = index + 1;
    }
    true
}

/// Whether an identifier, which may be missing, is a number.
pub open spec fn identifies(id: Option<Seq<char>>, number: Seq<char>) -> bool {
    match id {
        Some(id) => text::alike(text::without_hex_mark(id), number),
        None => false,
    }
}

fn is_identifier(id: Option<&str>, number: &str) -> (result: bool)
    ensures
        result == identifies(
            match id {
                Some(id) => Some(id@),
                None => None,
            },
            number@,
        ),
{
    match id {
        Some(id) => {
            let chars = text::chars_of(id);
            let bare = text::trim_hex_mark(chars.as_slice());
            text::eq_ignore_ascii_case(bare.as_slice(), number)
        },
        None => false,
    }
}

/// The name of an AMD card. One device number is shared by several boards; a
/// board's own numbers tell one of them apart.
pub open spec fn model_name(
    device_id: Option<Seq<char>>,
    subsystem_vendor_id: Option<Seq<char>>,
    subsystem_device_id: Option<Seq<char>>,
) -> Seq<char> {
    if identifies(device_id, "73bf"@) {
        if identifies(subsystem_vendor_id, "1458"@) && identifies(subsystem_device_id, "2328"@) {
            "AMD Radeon RX 6800 XT"@
        } else {
            "AMD Radeon Navi 21"@
        }
    } else {
        match device_id {
            Some(id) => "AMD Radeon ("@ + id + ")"@,
            None => "AMD Radeon"@,
        }
    }
}

pub open spec fn optional_text(value: Option<&str>) -> Option<Seq<char>> {
    match value {
        Some(value) => Some(value@),
        None => None,
    }
}

/// Names an AMD card.
pub fn gpu_model(
    device_id: Option<&str>,
    subsystem_vendor_id: Option<&str>,
    subsystem_device_id: Option<&str>,
) -> (result: String)
    ensures
        result@ == model_name(
            optional_text(device_id),
            optional_text(subsystem_vendor_id),
            optional_text(subsystem_device_id),
        ),
{
    if is_identifier(device_id, "73bf") {
        if is_identifier(subsystem_vendor_id, "1458") && is_identifier(
            subsystem_device_id,
            "2328",
        ) {
            return "AMD Radeon RX 6800 XT".to_owned();
        }
        return "AMD Radeon Navi 21".to_owned();
    }
    match device_id {
        Some(id) => {
            let mut model = "AMD Radeon (".to_owned();
            model.append(id);
            model.append(")");
            model
        },
        None => "AMD Radeon".to_owned(),
    }
}

/// What the kernel tells of a graphics card.
#[derive(Clone, Debug)]
pub struct CardFiles {
    pub card: String,
    pub vendor_id: Option<String>,
    pub device_id: Option<String>,
    pub subsystem_vendor_id: Option<String>,
    pub subsystem_device_id: Option<String>,
    /// Where the link to the driver leads.
    pub driver_link: Option<Vec<u8>>,
    /// The name of the card's sensor, where it has one.
    pub sensor_name: Option<String>,
    pub vram_used_bytes: Option<u64>,
    pub vram_total_bytes: Option<u64>,
    pub performance_level: Option<String>,
}

pub open spec fn owned_text(value: Option<String>) -> Option<Seq<char>> {
    match value {
        Some(value) => Some(value@),
        None => None,
    }
}

/// The driver of a card: the name that the link leads to, or that of the
/// sensor.
pub open spec fn driver_of(files: CardFiles) -> Option<Seq<char>> {
    let linked = match files.driver_link {
        Some(path) => paths::final_name(path@),
        None => None,
    };
    match linked {
        Some(name) => Some(text::lossy_text(name)),
        None => owned_text(files.sensor_name),
    }
}

/// The name of a card.
pub open spec fn card_model(files: CardFiles, vendor_id: Seq<char>) -> Seq<char> {
    if nvidia_nvml::nvidia_vendor(vendor_id) {
        match files.device_id {
            Some(id) => "NVIDIA GPU ("@ + id@ + ")"@,
            None => "NVIDIA GPU"@,
        }
    } else {
        model_name(
            owned_text(files.device_id),
            owned_text(files.subsystem_vendor_id),
            owned_text(files.subsystem_device_id),
        )
    }
}

/// Whether a card is shown.
pub open spec fn is_shown(vendor_id: Seq<char>, allow_nvidia_beta: bool) -> bool {
    supported_vendor(vendor_id) || allow_nvidia_beta && nvidia_nvml::nvidia_vendor(vendor_id)
}

fn borrowed(value: &Option<String>) -> (result: Option<&str>)
    ensures
        optional_text(result) == owned_text(*value),
{
    match value {
        Some(value) => Some(value.as_str()),
        None => None,
    }
}

fn driver_name(link: &Option<Vec<u8>>, sensor_name: Option<String>) -> (result: Option<String>)
    ensures
        owned_text(result) == (match (match *link {
            Some(path) => paths::final_name(path@),
            None => None,
        }) {
            Some(name) => Some(text::lossy_text(name)),
            None => owned_text(sensor_name),
        }),
{
    if let Some(path) = link {
        if let Some(name) = paths::file_name(path.as_slice()) {
            return Some(text::decode_lossy(name.as_slice()));
        }
    }
    sensor_name
}

/// A card as it is shown, without the readings that are fractions. An NVIDIA
/// card's readings come from its own library, and it has no performance level.
pub fn gpu_snapshot(files: CardFiles, allow_nvidia_beta: bool) -> (result: Option<GpuSnapshot>)
    ensures
        ({
            let shown = files.vendor_id matches Some(vendor) && is_shown(vendor@, allow_nvidia_beta);
            match result {
                None => !shown,
                Some(gpu) => {
                    &&& shown
                    &&& gpu.card@ == files.card@
                    &&& gpu.vendor_id@ == files.vendor_id->0@
                    &&& gpu.model@ == card_model(files, files.vendor_id->0@)
                    &&& owned_text(gpu.device_id) == owned_text(files.device_id)
                    &&& owned_text(gpu.driver) == driver_of(files)
                    &&& gpu.utilization_percent is None
                    &&& gpu.temperature_celsius is None
                    &&& gpu.clock_mhz is None
                    &&& gpu.power_milliwatts is None
                    &&& if nvidia_nvml::nvidia_vendor(files.vendor_id->0@) {
                        gpu.vram_used_bytes is None && gpu.vram_total_bytes is None
                            && gpu.performance_level is None
                    } else {
                        gpu.vram_used_bytes == files.vram_used_bytes && gpu.vram_total_bytes
                            == files.vram_total_bytes && owned_text(gpu.performance_level)
                            == owned_text(files.performance_level)
                    }
                },
            }
        }),
{
    let ghost given = files;
    let vendor_id = match files.vendor_id {
        Some(vendor_id) => vendor_id,
        None => {
            return None;
        },
    };
    let nvidia = nvidia_nvml::is_nvidia_vendor(vendor_id.as_str());
    if !(is_supported_gpu_vendor(vendor_id.as_str()) || allow_nvidia_beta && nvidia) {
        return None;
    }
    let model = if nvidia {
        match &files.device_id {
            Some(id) => {
                let mut model = "NVIDIA GPU (".to_owned();
                model.append(id.as_str());
                model.append(")");
                model
            },
            None => "NVIDIA GPU".to_owned(),
        }
    } else {
        gpu_model(
            borrowed(&files.device_id),
            borrowed(&files.subsystem_vendor_id),
            borrowed(&files.subsystem_device_id),
        )
    };
    let driver = driver_name(&files.driver_link, files.sensor_name);
    Some(
        GpuSnapshot {
            card: files.card,
            vendor_id,
            model,
            device_id: files.device_id,
            driver,
            utilization_percent: None,
            temperature_celsius: None,
            clock_mhz: None,
            vram_used_bytes: if nvidia {
                None
            } else {
                files.vram_used_bytes
            },
            vram_total_bytes: if nvidia {
                None
            } else {
                files.vram_total_bytes
            },
            power_milliwatts: None,
            performance_level: if nvidia {
                None
            } else {
                files.performance_level
            },
        },
    )
}

/// Where the kernel's reports lie, and whether NVIDIA cards are shown.
#[derive(Clone, Debug, PartialEq, Eq)]
pub struct LinuxHardwareProbe {
    pub proc_root: Vec<u8>,
    pub sys_root: Vec<u8>,
    pub allow_nvidia_beta: bool,
}

impl LinuxHardwareProbe {
    pub fn new(proc_root: Vec<u8>, sys_root: Vec<u8>) -> (result: Self)
        ensures
            result.proc_root@ == proc_root@,
            result.sys_root@ == sys_root@,
            !result.allow_nvidia_beta,
    {
        LinuxHardwareProbe { proc_root, sys_root, allow_nvidia_beta: false }
    }

    /// Shows NVIDIA cards where beta access was enabled.
    pub fn with_nvidia_beta_enabled(self, enabled: bool) -> (result: Self)
        ensures
            result == (LinuxHardwareProbe { allow_nvidia_beta: enabled, ..self }),
    {
        LinuxHardwareProbe {
            proc_root: self.proc_root,
            sys_root: self.sys_root,
            allow_nvidia_beta: enabled,
        }
    }

    /// A report below the processes' directory.
    pub fn proc_path(&self, name: &str) -> (result: Vec<u8>)
        ensures
            result@ == paths::joined(self.proc_root@, name.spec_bytes()),
    {
        paths::join(self.proc_root.as_slice(), name.as_bytes())
    }

    /// A report below the devices' directory.
    pub fn sys_path(&self, name: &str) -> (result: Vec<u8>)
        ensures
            result@ == paths::joined(self.sys_root@, name.spec_bytes()),
    {
        paths::join(self.sys_root.as_slice(), name.as_bytes())
    }
}

/// Whether a name is that of a sensor of the processor.
pub open spec fn cpu_sensor(name: Seq<char>) -> bool {
    name == "k10temp"@ || name == "zenpower"@
}

/// Whether a sensor measures the processor's temperature.
pub fn is_cpu_sensor(name: &str) -> (result: bool)
    ensures
        result == cpu_sensor(name@),
        result == (name@ == "k10temp"@ || name@ == "zenpower"@),
{
    text::same_text(name, "k10temp") || text::same_text(name, "zenpower")
}

/// Whether a sensor belongs to a supported card.
pub fn is_gpu_sensor(name: &str) -> (result: bool)
    ensures
        result == (name@ == "amdgpu"@),
{
    text::same_text(name, "amdgpu")
}

/// Where the readings of a card lie.
#[derive(Clone, Debug)]
pub struct GpuTelemetryPaths {
    pub temperature: Option<Vec<u8>>,
    pub utilization: Vec<u8>,
    pub clock: Option<Vec<u8>>,
    pub vram_used: Vec<u8>,
    pub vram_total: Vec<u8>,
    pub power: Option<Vec<u8>>,
    pub performance_level: Vec<u8>,
}

pub open spec fn below_sensor(sensor: Option<Seq<u8>>, name: Seq<u8>) -> Option<Seq<u8>> {
    match sensor {
        Some(directory) => Some(paths::joined(directory, name)),
        None => None,
    }
}

pub open spec fn path_view(path: Option<Vec<u8>>) -> Option<Seq<u8>> {
    match path {
        Some(path) => Some(path@),
        None => None,
    }
}

pub open spec fn sensor_view(sensor: Option<&[u8]>) -> Option<Seq<u8>> {
    match sensor {
        Some(directory) => Some(directory@),
        None => None,
    }
}

fn sensor_path(sensor: Option<&[u8]>, name: &str) -> (result: Option<Vec<u8>>)
    ensures
        path_view(result) == below_sensor(sensor_view(sensor), name.spec_bytes()),
{
    match sensor {
        Some(directory) => Some(paths::join(directory, name.as_bytes())),
        None => None,
    }
}

/// The directory of a card's device.
pub open spec fn device_directory(sys_root: Seq<u8>, card: Seq<u8>) -> Seq<u8> {
    paths::joined(
        paths::joined(paths::joined(sys_root, "class/drm".spec_bytes()), card),
        "device".spec_bytes(),
    )
}

/// The readings of a card, given the directory of its sensor.
pub fn discover_gpu_telemetry_paths(sys_root: &[u8], card: &str, sensor: Option<&[u8]>) -> (result:
    GpuTelemetryPaths)
    ensures
        ({
            let device = device_directory(sys_root@, card.spec_bytes());
            let sensor = sensor_view(sensor);
            &&& path_view(result.temperature) == below_sensor(sensor, "temp1_input".spec_bytes())
            &&& result.utilization@ == paths::joined(device, "gpu_busy_percent".spec_bytes())
            &&& path_view(result.clock) == below_sensor(sensor, "freq1_input".spec_bytes())
            &&& result.vram_used@ == paths::joined(device, "mem_info_vram_used".spec_bytes())
            &&& result.vram_total@ == paths::joined(device, "mem_info_vram_total".spec_bytes())
            &&& path_view(result.power) == below_sensor(sensor, "power1_average".spec_bytes())
            &&& result.performance_level@ == paths::joined(
                device,
                "power_dpm_force_performance_level".spec_bytes(),
            )
        }),
{
    let cards = paths::join(sys_root, "class/drm".as_bytes());
    let directory = paths::join(cards.as_slice(), card.as_bytes());
    let device = paths::join(directory.as_slice(), "device".as_bytes());
    GpuTelemetryPaths {
        temperature: sensor_path(sensor, "temp1_input"),
        utilization: paths::join(device.as_slice(), "gpu_busy_percent".as_bytes()),
        clock: sensor_path(sensor, "freq1_input"),
        vram_used: paths::join(device.as_slice(), "mem_info_vram_used".as_bytes()),
        vram_total: paths::join(device.as_slice(), "mem_info_vram_total".as_bytes()),
        power: sensor_path(sensor, "power1_average"),
        performance_level: paths::join(
            device.as_slice(),
            "power_dpm_force_performance_level".as_bytes(),
        ),
    }
}

/// A whole number in a file of the kernel, with spaces around it.
pub fn read_u64(contents: &str) -> (result: Option<u64>)
    ensures
        match result {
            Some(value) => text::parsed_decimal(text::trimmed(contents@), u64::MAX as nat) == Some(
                value as nat,
            ),
            None => text::parsed_decimal(text::trimmed(contents@), u64::MAX as nat) is None,
        },
{
    let chars = text::chars_of(contents);
    let trimmed = text::trim(chars.as_slice());
    text::parse_decimal(trimmed.as_slice(), u64::MAX)
}

/// The text of a file of the kernel without spaces around it.
pub fn read_trimmed(contents: &str) -> (result: String)
    ensures
        result@ == text::trimmed(contents@),
{
    let chars = text::chars_of(contents);
    let trimmed = text::trim(chars.as_slice());
    text::string_of(trimmed.as_slice())
}

/// Busy time is what user, nice, system, interrupt, soft-interrupt and stolen
/// time grew by. Idle and waiting time count for the total alone.
pub proof fn busy_time_is_work(previous: Seq<u64>, current: Seq<u64>)
    requires
        previous.len() == 8,
        current.len() == 8,
        forall|i: int| 0 <= i < 8 ==> previous[i] <= #[trigger] current[i],
    ensures
        ({
            let work = (current[0] - previous[0]) + (current[1] - previous[1]) + (current[2]
                - previous[2]) + (current[5] - previous[5]) + (current[6] - previous[6]) + (
            current[7] - previous[7]);
            let rest = (current[3] - previous[3]) + (current[4] - previous[4]);
            match time_between(previous, current) {
                Some((busy, total)) => {
                    &&& busy == work
                    &&& total == work + rest
                    &&& 0 < work + rest <= 0xffff_ffff
                },
                None => work + rest == 0 || work + rest > 0xffff_ffff,
            }
        }),
{
    assert(current[0] >= previous[0] && current[1] >= previous[1] && current[2] >= previous[2]
        && current[3] >= previous[3] && current[4] >= previous[4] && current[5] >= previous[5]
        && current[6] >= previous[6] && current[7] >= previous[7]);
    assert(forall|i: int| 0 <= i < 8 ==> !(#[trigger] current[i] < previous[i]));
}

/// More idle or waiting time makes the total larger and leaves the busy time
/// as it is.
pub proof fn waiting_is_not_busy(previous: Seq<u64>, current: Seq<u64>, later: Seq<u64>)
    requires
        previous.len() == 8,
        current.len() == 8,
        later.len() == 8,
        forall|i: int| 0 <= i < 8 ==> previous[i] <= #[trigger] current[i],
        forall|i: int| 0 <= i < 8 && i != 3 && i != 4 ==> later[i] == #[trigger] current[i],
        current[3] <= later[3],
        current[4] <= later[4],
        time_between(previous, current) is Some,
        time_between(previous, later) is Some,
    ensures
        match (time_between(previous, current), time_between(previous, later)) {
            (Some((busy, total)), Some((later_busy, later_total))) => later_busy == busy
                && later_total == total + (later[3] - current[3]) + (later[4] - current[4]),
            _ => false,
        },
{
    assert(forall|i: int| 0 <= i < 8 ==> previous[i] <= #[trigger] later[i]) by {
        assert(current[3] >= previous[3] && current[4] >= previous[4]);
        assert forall|i: int| 0 <= i < 8 implies previous[i] <= #[trigger] later[i] by {
            assert(previous[i] <= current[i]);
        }
    }
    busy_time_is_work(previous, current);
    busy_time_is_work(previous, later);
    assert(later[0] == current[0] && later[1] == current[1] && later[2] == current[2] && later[5]
        == current[5] && later[6] == current[6] && later[7] == current[7]);
}

/// A counter that went back leaves no reading.
pub proof fn counters_that_went_back_give_nothing(previous: Seq<u64>, current: Seq<u64>, at: int)
    requires
        0 <= at < 8,
        current[at] < previous[at],
    ensures
        time_between(previous, current) is None,
{
}

/// The eight counters of a line of processor times are its numbers in their
/// order: the first four have to be there, and those that an older kernel does
/// not write are zero.
pub proof fn counters_are_read_in_order(words: Seq<Seq<char>>, counters: Seq<u64>, given: int)
    requires
        4 <= given <= 8,
        counters.len() == 8,
        words.len() == given + 1,
        forall|i: int|
            0 <= i < given ==> #[trigger] words[i + 1] == text::decimal(counters[i] as nat),
        forall|i: int| given <= i < 8 ==> #[trigger] counters[i] == 0,
    ensures
        counters_of(words, 8) == Some(counters),
{
    lemma_counters_so_far(words, counters, given, 8);
    assert(counters.take(8) =~= counters);
}

proof fn lemma_counters_so_far(
    words: Seq<Seq<char>>,
    counters: Seq<u64>,
    given: int,
    count: nat,
)
    requires
        4 <= given <= 8,
        counters.len() == 8,
        words.len() == given + 1,
        forall|i: int|
            0 <= i < given ==> #[trigger] words[i + 1] == text::decimal(counters[i] as nat),
        forall|i: int| given <= i < 8 ==> #[trigger] counters[i] == 0,
        count <= 8,
    ensures
        counters_of(words, count) == Some(counters.take(count as int)),
    decreases count,
{
    if count == 0 {
        assert(counters.take(0) =~= Seq::<u64>::empty());
    } else {
        lemma_counters_so_far(words, counters, given, (count - 1) as nat);
        let i = count - 1;
        text::decimal_round_trip(counters[i] as nat);
        if i < given {
            assert(words[i + 1] == text::decimal(counters[i] as nat));
        }
        assert(counters.take(i).push(counters[i]) =~= counters.take(count as int));
    }
}

/// A line with fewer than four counters states no times.
pub proof fn short_lines_state_no_times(words: Seq<Seq<char>>)
    requires
        words.len() <= 4,
    ensures
        counters_of(words, 8) is None,
{
    reveal_with_fuel(counters_of, 9);
    assert(counter_at(words, 3) is None);
}

/// AMD's cards are shown, NVIDIA's where they are asked for, and no others. The
/// vendor is told by its number in base sixteen, in either letter case.
pub proof fn vendors_are_told_by_number(vendor: Seq<char>, nvidia_beta: bool)
    requires
        vendor.len() == 4,
    ensures
        ({
            let shown = is_shown("0x"@ + vendor, nvidia_beta);
            let amd = vendor == seq!['1', '0', '0', '2'];
            let nvidia = vendor[0] == '1' && vendor[1] == '0' && (vendor[2] == 'd' || vendor[2]
                == 'D') && (vendor[3] == 'e' || vendor[3] == 'E');
            shown == (amd || nvidia_beta && nvidia)
        }),
{
    reveal_strlit("0x");
    reveal_strlit("1002");
    reveal_strlit("10de");
    let written = "0x"@ + vendor;
    assert(written.skip(2) =~= vendor);
    assert(written[0] == '0' && written[1] == 'x');
    assert(text::without_hex_mark(written) == text::without_hex_mark(vendor));
    if vendor[0] == '0' && vendor[1] == 'x' {
        let rest = vendor.skip(2);
        assert(text::without_hex_mark(vendor) == text::without_hex_mark(rest));
        lemma_unmarked_is_shorter(rest);
        if text::alike(text::without_hex_mark(rest), "1002"@) {
            text::lemma_alike_length(text::without_hex_mark(rest), "1002"@);
        }
        if text::alike(text::without_hex_mark(rest), "10de"@) {
            text::lemma_alike_length(text::without_hex_mark(rest), "10de"@);
        }
    } else {
        assert(text::without_hex_mark(vendor) == vendor);
        lemma_spelled(vendor, "1002"@);
        lemma_spelled(vendor, "10de"@);
        if vendor[0] == '1' && vendor[1] == '0' && vendor[2] == '0' && vendor[3] == '2' {
            assert(vendor =~= seq!['1', '0', '0', '2']);
        }
    }
}

proof fn lemma_unmarked_is_shorter(chars: Seq<char>)
    ensures
        text::without_hex_mark(chars).len() <= chars.len(),
    decreases chars.len(),
{
    if chars.len() >= 2 && chars[0] == '0' && chars[1] == 'x' {
        lemma_unmarked_is_shorter(chars.skip(2));
    }
}

/// Four characters are alike where each of them is.
proof fn lemma_spelled(left: Seq<char>, right: Seq<char>)
    requires
        left.len() == 4,
        right.len() == 4,
    ensures
        text::alike(left, right) <==> text::lower_char(left[0]) == text::lower_char(right[0])
            && text::lower_char(left[1]) == text::lower_char(right[1]) && text::lower_char(left[2])
            == text::lower_char(right[2]) && text::lower_char(left[3]) == text::lower_char(
            right[3],
        ),
{
    if text::alike(left, right) {
        text::lemma_alike_at(left, right, 0);
        text::lemma_alike_at(left, right, 1);
        text::lemma_alike_at(left, right, 2);
        text::lemma_alike_at(left, right, 3);
    }
    if text::lower_char(left[0]) == text::lower_char(right[0]) && text::lower_char(left[1])
        == text::lower_char(right[1]) && text::lower_char(left[2]) == text::lower_char(right[2])
        && text::lower_char(left[3]) == text::lower_char(right[3]) {
        text::lemma_alike_by_place(left, right);
    }
}

/// A processor is counted for each line of the description that has its key,
/// whatever else the description holds.
pub proof fn processors_are_counted(lines: Seq<Seq<char>>, line: Seq<char>, number: Seq<char>)
    requires
        line == "processor\t: "@ + number,
    ensures
        count_of_key(lines.push(line), "processor"@) == count_of_key(lines, "processor"@) + 1,
{
    reveal_strlit("processor\t: ");
    reveal_strlit("processor");
    assert(lines.push(line).drop_last() =~= lines);
    assert forall|i: int| 0 <= i < 10 implies line[i] != ':' by {
        assert(line[i] == "processor\t: "@[i]);
    }
    assert(line[10] == ':');
    text::lemma_first_index_is(line, ':', 10);
    let key = line.take(10);
    assert(key =~= "processor"@.push('\t'));
    assert(text::trimmed(key) == "processor"@) by {
        let front = text::trimmed_start(key);
        assert(key[0] == 'p');
        assert(!text::is_space('p'));
        assert(front == key);
        assert(key.last() == '\t');
        assert(key.drop_last() =~= "processor"@);
        assert("processor"@.last() == 'r');
        assert(text::trimmed_end("processor"@) == "processor"@);
        assert(text::trimmed_end(key) == text::trimmed_end(key.drop_last()));
    }
}

/// The first line with a key gives the value behind its colon, without the space
/// around it. Lines with other keys are passed over.
pub proof fn the_first_line_with_a_key_counts(
    lines: Seq<Seq<char>>,
    key: Seq<char>,
    value: Seq<char>,
    rest: Seq<Seq<char>>,
)
    requires
        forall|i: int| 0 <= i < lines.len() ==> line_key(#[trigger] lines[i]) != Some(key),
        !key.contains(':'),
        text::trimmed(key) == key,
    ensures
        first_cpu_value(lines + seq![key + ":"@ + value] + rest, key) == Some(text::trimmed(value)),
    decreases lines.len(),
{
    reveal_strlit(":");
    let line = key + ":"@ + value;
    let all = lines + seq![line] + rest;
    if lines.len() == 0 {
        assert(all[0] == line);
        text::lemma_field_splits(key, ':', value);
        assert(key + seq![':'] + value =~= line);
    } else {
        assert(all[0] == lines[0]);
        assert(all.skip(1) =~= lines.skip(1) + seq![line] + rest);
        assert forall|i: int| 0 <= i < lines.skip(1).len() implies line_key(
            #[trigger] lines.skip(1)[i],
        ) != Some(key) by {
            assert(lines.skip(1)[i] == lines[i + 1]);
        }
        assert(line_key(lines[0]) != Some(key));
        the_first_line_with_a_key_counts(lines.skip(1), key, value, rest);
    }
}

/// Several cards are all shown, unless NVIDIA's are asked for and one of them
/// is. A single card is shown.
pub proof fn cards_are_shown_unless_they_are_mixed(
    vendors: Seq<Option<String>>,
    at: int,
    vendor: String,
)
    requires
        0 <= at < vendors.len(),
        vendors[at] == Some(vendor),
        nvidia_nvml::nvidia_vendor(vendor@),
    ensures
        cards_shown(vendors, true) <==> vendors.len() == 1,
        cards_shown(vendors, false),
{
}

/// The sensors of the processor are those of the two drivers for AMD's.
pub proof fn two_drivers_measure_the_processor(name: Seq<char>)
    ensures
        cpu_sensor(name) <==> name == "k10temp"@ || name == "zenpower"@,
{
}

/// A processor is described by the values of its own keys, and by a placeholder
/// where one is missing.
pub proof fn processors_are_described_by_their_keys(cpuinfo: Seq<char>, value: Seq<char>)
    ensures
        ({
            let lines = text::lines_of(cpuinfo);
            let (vendor, model, count) = described_cpu(cpuinfo);
            &&& first_cpu_value(lines, "vendor_id"@) == Some(value) ==> vendor == value
            &&& first_cpu_value(lines, "vendor_id"@) is None ==> vendor == "Unknown"@
            &&& first_cpu_value(lines, "model name"@) == Some(value) ==> model == value
            &&& first_cpu_value(lines, "model name"@) is None ==> model == "Unknown CPU"@
            &&& count == count_of_key(lines, "processor"@)
        }),
{
}

/// The times of all processors together stand on the line that starts with `cpu`
/// and a space. The lines of single processors have a number there.
pub proof fn the_line_of_all_processors_has_no_number(character: char, rest: Seq<char>)
    ensures
        is_aggregate("cpu"@ + seq![character] + rest) <==> text::is_space(character),
        '0' <= character <= '9' ==> !is_aggregate("cpu"@ + seq![character] + rest),
        is_aggregate("cpu "@ + rest),
{
    reveal_strlit("cpu");
    reveal_strlit("cpu ");
    let line = "cpu"@ + seq![character] + rest;
    assert(line.take(3) =~= "cpu"@);
    assert(line.skip(3)[0] == character);
    let total = "cpu "@ + rest;
    assert(total.take(3) =~= "cpu"@);
    assert(total.skip(3)[0] == ' ');
}

/// A card that is not known by its numbers is shown with its own number.
pub proof fn unknown_cards_show_their_number(device: Seq<char>)
    requires
        !text::alike(text::without_hex_mark(device), "73bf"@),
    ensures
        model_name(Some(device), None, None) == "AMD Radeon ("@ + device + ")"@,
        model_name(None, None, None) == "AMD Radeon"@,
{
}

/// One card of its family is known by its maker's numbers too.
pub proof fn known_cards_show_their_name(
    device: Seq<char>,
    maker: Option<Seq<char>>,
    board: Option<Seq<char>>,
)
    requires
        text::alike(text::without_hex_mark(device), "73bf"@),
    ensures
        maker matches Some(vendor) && text::alike(text::without_hex_mark(vendor), "1458"@) && (
        board matches Some(number) && text::alike(text::without_hex_mark(number), "2328"@))
            ==> model_name(Some(device), maker, board) == "AMD Radeon RX 6800 XT"@,
        maker is None || board is None ==> model_name(Some(device), maker, board)
            == "AMD Radeon Navi 21"@,
{
}

/// A card is a directory named `card` and its number. Its connectors, which have
/// more in their names, are none.
pub proof fn cards_are_named_by_number(number: Seq<u8>, at: int)
    ensures
        (number.len() > 0 && forall|i: int|
            0 <= i < number.len() ==> '0' as u8 <= #[trigger] number[i] <= '9' as u8) ==> card_name(
            "card".spec_bytes() + number,
        ),
        0 <= at < number.len() && !('0' as u8 <= number[at] <= '9' as u8) ==> !card_name(
            "card".spec_bytes() + number,
        ),
        !card_name("card".spec_bytes()),
{
    let start = "card".spec_bytes();
    let name = start + number;
    assert(name.take(start.len() as int) =~= start);
    assert(name.skip(start.len() as int) =~= number);
    assert(start.skip(start.len() as int) =~= Seq::<u8>::empty());
}

/// A card's driver is the last part of the link to it, else the name of its
/// sensor.
pub proof fn drivers_are_named_by_their_link(files: CardFiles)
    ensures
        files.driver_link is None ==> driver_of(files) == owned_text(files.sensor_name),
        files.driver_link matches Some(link) ==> (paths::final_name(link@) matches Some(name)
            ==> driver_of(files) == Some(text::lossy_text(name))),
{
}

/// NVIDIA's cards are shown with their number.
pub proof fn nvidia_cards_show_their_number(files: CardFiles, vendor: Seq<char>)
    requires
        nvidia_nvml::nvidia_vendor(vendor),
    ensures
        files.device_id matches Some(id) ==> card_model(files, vendor) == "NVIDIA GPU ("@ + id@
            + ")"@,
        files.device_id is None ==> card_model(files, vendor) == "NVIDIA GPU"@,
{
}

/// The first line of all processors counts, whatever stands before it.
pub proof fn the_first_total_counts(before: Seq<Seq<char>>, line: Seq<char>, rest: Seq<Seq<char>>)
    requires
        forall|i: int| 0 <= i < before.len() ==> !is_aggregate(#[trigger] before[i]),
        is_aggregate(line),
    ensures
        aggregate_line(before + seq![line] + rest) == Some(line),
    decreases before.len(),
{
    let all = before + seq![line] + rest;
    if before.len() == 0 {
        assert(all[0] == line);
    } else {
        let later = before.skip(1);
        assert(all[0] == before[0]);
        assert(all.skip(1) =~= later + seq![line] + rest);
        assert forall|i: int| 0 <= i < later.len() implies !is_aggregate(#[trigger] later[i]) by {
            assert(later[i] == before[i + 1]);
        }
        the_first_total_counts(later, line, rest);
    }
}

} // verus!
