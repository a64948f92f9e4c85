//! Processor affinity and priority of processes, as the system's tools read
//! and write them.
use crate::text;
use vstd::prelude::*;
use vstd::string::*;

verus! {

broadcast use vstd::string::group_string_axioms;

/// How far the end of a range of processors may lie behind its start.
pub const MAX_CPU_RANGE: usize = 4096;

/// The processors that a process may run on.
#[derive(Clone, Debug, PartialEq, Eq)]
pub struct AffinityMask {
    pub cpus: Vec<usize>,
}

#[derive(Clone, Copy, Debug, PartialEq, Eq, Structural)]
pub enum ProcessControlError {
    AffinityUnreadable,
    InvalidAffinity,
    InvalidCpuRange,
    UnboundedCpuRange,
    InvalidCpuIndex,
    EmptyAffinity,
    AffinityRefused,
    PriorityUnreadable,
    InvalidPriority,
    PriorityOutOfRange,
    PriorityRefused,
}

impl ProcessControlError {
    pub open spec fn text(self) -> Seq<char> {
        match self {
            ProcessControlError::AffinityUnreadable => "taskset could not read process affinity"@,
            ProcessControlError::InvalidAffinity => "taskset returned an invalid affinity"@,
            ProcessControlError::InvalidCpuRange => "invalid CPU range"@,
            ProcessControlError::UnboundedCpuRange => "CPU range is unbounded"@,
            ProcessControlError::InvalidCpuIndex => "invalid CPU index"@,
            ProcessControlError::EmptyAffinity => "affinity cannot be empty"@,
            ProcessControlError::AffinityRefused => "taskset could not apply process affinity"@,
            ProcessControlError::PriorityUnreadable => "ps could not read process priority"@,
            ProcessControlError::InvalidPriority => "ps returned an invalid priority"@,
            ProcessControlError::PriorityOutOfRange => "priority adjustment is outside the supported range"@,
            ProcessControlError::PriorityRefused => "renice could not apply process priority"@,
        }
    }

    /// The sentence for this error.
    pub fn message(&self) -> (result: &'static str)
        ensures
            result@ == self.text(),
    {
        match self {
            ProcessControlError::AffinityUnreadable => "taskset could not read process affinity",
            ProcessControlError::InvalidAffinity => "taskset returned an invalid affinity",
            ProcessControlError::InvalidCpuRange => "invalid CPU range",
            ProcessControlError::UnboundedCpuRange => "CPU range is unbounded",
            ProcessControlError::InvalidCpuIndex => "invalid CPU index",
            ProcessControlError::EmptyAffinity => "affinity cannot be empty",
            ProcessControlError::AffinityRefused => "taskset could not apply process affinity",
            ProcessControlError::PriorityUnreadable => "ps could not read process priority",
            ProcessControlError::InvalidPriority => "ps returned an invalid priority",
            ProcessControlError::PriorityOutOfRange => "priority adjustment is outside the supported range",
            ProcessControlError::PriorityRefused => "renice could not apply process priority",
        }
    }
}

/// A number with spaces around it.
pub open spec fn padded_number(chars: Seq<char>) -> Option<nat> {
    text::parsed_decimal(text::trimmed(chars), usize::MAX as nat)
}

/// The processors from one to another.
pub open spec fn cpu_range(start: nat, end: nat) -> Seq<usize> {
    Seq::new((end - start + 1) as nat, |i: int| (start + i) as usize)
}

/// The processors of one part of a list: a range or a single one.
pub open spec fn part_cpus(part: Seq<char>) -> Result<Seq<usize>, ProcessControlError> {
    match text::split_at_first(part, '-') {
        Some((first, last)) => match (padded_number(first), padded_number(last)) {
            (Some(start), Some(end)) => if end < start || end - start > MAX_CPU_RANGE {
                Err(ProcessControlError::UnboundedCpuRange)
            } else {
                Ok(cpu_range(start, end))
            },
            _ => Err(ProcessControlError::InvalidCpuRange),
        },
        None => match padded_number(part) {
            Some(cpu) => Ok(seq![cpu as usize]),
            None => Err(ProcessControlError::InvalidCpuIndex),
        },
    }
}

/// The processors of some parts, in order, or the first error.
pub open spec fn listed_cpus(parts: Seq<Seq<char>>) -> Result<Seq<usize>, ProcessControlError>
    decreases parts.len(),
{
    if parts.len() == 0 {
        Ok(Seq::empty())
    } else {
        match listed_cpus(parts.drop_last()) {
            Err(error) => Err(error),
            Ok(before) => match part_cpus(parts.last()) {
                Err(error) => Err(error),
                Ok(more) => Ok(before + more),
            },
        }
    }
}

/// The processors of a list.
pub open spec fn cpu_list(list: Seq<char>) -> Result<Seq<usize>, ProcessControlError> {
    listed_cpus(text::fields_of(list, ','))
}

fn read_number(chars: &[char]) -> (result: Option<usize>)
    ensures
        match result {
            Some(value) => padded_number(chars@) == Some(value as nat),
            None => padded_number(chars@) is None,
        },
{
    let trimmed = text::trim(chars);
    match text::parse_decimal(trimmed.as_slice(), usize::MAX as u64) {
        Some(value) => Some(value as usize),
        None => None,
    }
}

fn add_part(cpus: &mut Vec<usize>, part: &[char]) -> (result: Result<(), ProcessControlError>)
    ensures
        match part_cpus(part@) {
            Ok(more) => result is Ok && final(cpus)@ == old(cpus)@ + more,
            Err(error) => result == Err::<(), ProcessControlError>(error),
        },
{
    match text::split_once(part, '-') {
        Some((first, last)) => {
            match (read_number(first.as_slice()), read_number(last.as_slice())) {
                (Some(start), Some(end)) => {
                    if end < start || end - start > MAX_CPU_RANGE {
                        return Err(ProcessControlError::UnboundedCpuRange);
                    }
                    let ghost range = cpu_range(start as nat, end as nat);
                    let ghost before = cpus@;
                    let count: usize = end - start;
                    let mut offset: usize = 0;
                    assert(before + range.take(0) =~= before);
                    while offset < count
                        invariant
                            offset <= count,
                            count <= MAX_CPU_RANGE,
                            count == end - start,
                            range == cpu_range(start as nat, end as nat),
                            cpus@ == before + range.take(offset as int),
                        decreases count - offset,
                    {
                        cpus.push(start + offset);
                        offset = offset + 1;
                        assert(cpus@ =~= before + range.take(offset as int));
                    }
                    cpus.push(end);
                    assert(cpus@ =~= before + range);
                    Ok(())
                },
                _ => Err(ProcessControlError::InvalidCpuRange),
            }
        },
        None => match read_number(part) {
            Some(cpu) => {
                let ghost before = cpus@;
                cpus.push(cpu);
                assert(cpus@ =~= before + seq![cpu]);
                Ok(())
            },
            None => Err(ProcessControlError::InvalidCpuIndex),
        },
    }
}

proof fn lemma_first_error(parts: Seq<Seq<char>>, count: int)
    requires
        0 <= count <= parts.len(),
        listed_cpus(parts.take(count)) is Err,
    ensures
        listed_cpus(parts) == listed_cpus(parts.take(count)),
    decreases parts.len() - count,
{
    if count == parts.len() {
        assert(parts.take(count) =~= parts);
    } else {
        assert(parts.take(count + 1).drop_last() =~= parts.take(count));
        lemma_first_error(parts, count + 1);
    }
}

fn read_cpu_list(chars: &[char]) -> (result: Result<Vec<usize>, ProcessControlError>)
    ensures
        match result {
            Ok(cpus) => cpu_list(chars@) == Ok::<Seq<usize>, ProcessControlError>(cpus@),
            Err(error) => cpu_list(chars@) == Err::<Seq<usize>, ProcessControlError>(error),
        },
{
    let fields = text::split_fields(chars, ',');
    let ghost parts = text::views(fields@);
    let mut cpus: Vec<usize> = Vec::new();
    let mut index: usize = 0;
    assert(cpus@ =~= Seq::<usize>::empty());
    while index < fields.len()
        invariant
            index <= fields@.len(),
            parts == text::views(fields@),
            parts == text::fields_of(chars@, ','),
            listed_cpus(parts.take(index as int)) == Ok::<Seq<usize>, ProcessControlError>(cpus@),
        decreases fields@.len() - index,
    {
        assert(parts.take(index + 1).drop_last() =~= parts.take(index as int));
        assert(parts.take(index + 1).last() == fields@[index as int]@);
        if let Err(error) = add_part(&mut cpus, fields[index].as_slice()) {
            proof {
                lemma_first_error(parts, index + 1);
            }
            return Err(error);
        }
        index = index + 1;
    }
    assert(parts.take(index as int) =~= parts);
    Ok(cpus)
}

/// Reads a list of processors such as `0-3,8`.
pub fn parse_cpu_list(value: &str) -> (result: Result<Vec<usize>, ProcessControlError>)
    ensures
        match result {
            Ok(cpus) => cpu_list(value@) == Ok::<Seq<usize>, ProcessControlError>(cpus@),
            Err(error) => cpu_list(value@) == Err::<Seq<usize>, ProcessControlError>(error),
        },
{
    let chars = text::chars_of(value);
    read_cpu_list(chars.as_slice())
}

/// The affinity in what the tool printed: the list behind the last colon.
pub open spec fn printed_affinity(printed: Seq<char>) -> Result<Seq<usize>, ProcessControlError> {
    match text::after_last(printed, ':') {
        None => Err(ProcessControlError::InvalidAffinity),
        Some(list) => cpu_list(text::trimmed(list)),
    }
}

/// Reads the affinity in a printed text.
pub fn parse_affinity(printed: &str) -> (result: Result<AffinityMask, ProcessControlError>)
    ensures
        match result {
            Ok(mask) => printed_affinity(printed@) == Ok::<Seq<usize>, ProcessControlError>(
                mask.cpus@,
            ),
            Err(error) => printed_affinity(printed@) == Err::<Seq<usize>, ProcessControlError>(
                error,
            ),
        },
{
    let chars = text::chars_of(printed);
    let list = match text::split_last(chars.as_slice(), ':') {
        Some(list) => list,
        None => {
            return Err(ProcessControlError::InvalidAffinity);
        },
    };
    let trimmed = text::trim(list.as_slice());
    match read_cpu_list(trimmed.as_slice()) {
        Ok(cpus) => Ok(AffinityMask { cpus }),
        Err(error) => Err(error),
    }
}

/// Reads the affinity of a process from what `taskset` printed.
pub fn read_affinity(success: bool, output: &[u8]) -> (result: Result<
    AffinityMask,
    ProcessControlError,
>)
    ensures
        match result {
            Ok(mask) => success && printed_affinity(text::lossy_text(output@)) == Ok::<
                Seq<usize>,
                ProcessControlError,
            >(mask.cpus@),
            Err(error) => if !success {
                error == ProcessControlError::AffinityUnreadable
            } else {
                printed_affinity(text::lossy_text(output@)) == Err::<
                    Seq<usize>,
                    ProcessControlError,
                >(error)
            },
        },
{
    if !success {
        return Err(ProcessControlError::AffinityUnreadable);
    }
    let printed = text::decode_lossy(output);
    parse_affinity(printed.as_str())
}

/// Processors as a list.
pub open spec fn cpu_texts(cpus: Seq<usize>) -> Seq<Seq<char>> {
    cpus.map_values(|cpu: usize| text::decimal(cpu as nat))
}

/// The list that is handed to `taskset` for a mask.
pub fn apply_affinity(mask: &AffinityMask) -> (result: Result<String, ProcessControlError>)
    ensures
        match result {
            Ok(list) => mask.cpus@.len() > 0 && list@ == text::joined_fields(
                cpu_texts(mask.cpus@),
                ',',
            ),
            Err(error) => mask.cpus@.len() == 0 && error == ProcessControlError::EmptyAffinity,
        },
{
    let cpus = &mask.cpus;
    if cpus.len() == 0 {
        return Err(ProcessControlError::EmptyAffinity);
    }
    let ghost texts = cpu_texts(cpus@);
    let mut list = text::decimal_chars(cpus[0] as u64);
    let mut index: usize = 1;
    assert(texts.take(1) =~= seq![list@]);
    while index < cpus.len()
        invariant
            1 <= index <= cpus@.len(),
            texts == cpu_texts(cpus@),
            list@ == text::joined_fields(texts.take(index as int), ','),
        decreases cpus@.len() - index,
    {
        let digits = text::decimal_chars(cpus[index] as u64);
        assert(texts.take(index + 1).drop_last() =~= texts.take(index as int));
        assert(texts.take(index + 1).last() == digits@);
        list.push(',');
        list.extend_from_slice(digits.as_slice());
        index = index + 1;
    }
    assert(texts.take(index as int) =~= texts);
    Ok(text::string_of(list.as_slice()))
}

/// The signed number that a text spells.
pub open spec fn parsed_signed(chars: Seq<char>) -> Option<int> {
    if chars.len() > 0 && chars[0] == '-' {
        let digits = chars.drop_first();
        if text::all_digits(digits) && text::digits_value(digits) <= 0x8000_0000 {
            Some(-(text::digits_value(digits) as int))
        } else {
            None
        }
    } else {
        match text::parsed_decimal(chars, 0x7fff_ffff) {
            Some(value) => Some(value as int),
            None => None,
        }
    }
}

/// Reads the priority in a printed text.
pub fn parse_priority(printed: &str) -> (result: Option<i32>)
    ensures
        match result {
            Some(priority) => parsed_signed(text::trimmed(printed@)) == Some(priority as int),
            None => parsed_signed(text::trimmed(printed@)) is None,
        },
{
    let chars = text::chars_of(printed);
    let trimmed = text::trim(chars.as_slice());
    if trimmed.len() > 0 && trimmed[0] == '-' {
        let digits = vstd::slice::slice_to_vec(
            vstd::slice::slice_subrange(trimmed.as_slice(), 1, trimmed.len()),
        );
        assert(digits@ =~= trimmed@.drop_first());
        if digits.len() > 0 && digits[0] == '+' {
            assert(!text::is_digit(digits@[0]));
            return None;
        }
        match text::parse_decimal(digits.as_slice(), 0x8000_0000) {
            Some(value) => Some((-(value as i64)) as i32),
            None => None,
        }
    } else {
        match text::parse_decimal(trimmed.as_slice(), 0x7fff_ffff) {
            Some(value) => Some(value as i32),
            None => None,
        }
    }
}

/// Reads the priority of a process from what `ps` printed.
pub fn read_priority(success: bool, output: &[u8]) -> (result: Result<i32, ProcessControlError>)
    ensures
        ({
            let printed = parsed_signed(text::trimmed(text::lossy_text(output@)));
            match result {
                Ok(priority) => success && printed == Some(priority as int),
                Err(error) => if !success {
                    error == ProcessControlError::PriorityUnreadable
                } else {
                    printed is None && error == ProcessControlError::InvalidPriority
                },
            }
        }),
{
    if !success {
        return Err(ProcessControlError::PriorityUnreadable);
    }
    let printed = text::decode_lossy(output);
    match parse_priority(printed.as_str()) {
        Some(priority) => Ok(priority),
        None => Err(ProcessControlError::InvalidPriority),
    }
}

/// Whether a priority may be adjusted by some steps.
pub open spec fn may_adjust(value: i32) -> bool {
    -5 <= value <= 5
}

/// Accepts an adjustment that may be applied.
pub fn apply_priority(value: i32) -> (result: Result<(), ProcessControlError>)
    ensures
        result is Ok <==> may_adjust(value),
        result == (if -5 <= value <= 5 {
            Ok::<(), ProcessControlError>(())
        } else {
            Err(ProcessControlError::PriorityOutOfRange)
        }),
{
    if value < -5 || value > 5 {
        return Err(ProcessControlError::PriorityOutOfRange);
    }
    Ok(())
}

proof fn lemma_digits_are_trimmed(digits: Seq<char>)
    requires
        text::all_digits(digits),
    ensures
        text::trimmed(digits) == digits,
{
    assert(text::is_digit(digits[0]));
    assert(text::is_digit(digits[digits.len() - 1]));
    assert(!text::is_space(digits[0]));
    assert(!text::is_space(digits.last()));
    assert(text::trimmed_start(digits) == digits);
    assert(text::trimmed_end(digits) == digits);
}

proof fn lemma_single_cpu(cpu: usize)
    ensures
        part_cpus(text::decimal(cpu as nat)) == Ok::<Seq<usize>, ProcessControlError>(seq![cpu]),
        !text::decimal(cpu as nat).contains(','),
{
    let digits = text::decimal(cpu as nat);
    text::decimal_round_trip(cpu as nat);
    assert forall|i: int| 0 <= i < digits.len() implies digits[i] != ',' && digits[i] != '-' by {
        assert(text::is_digit(digits[i]));
    }
    text::lemma_first_index(digits, '-');
    lemma_digits_are_trimmed(digits);
}

proof fn lemma_cpus_read_back(cpus: Seq<usize>)
    ensures
        listed_cpus(cpu_texts(cpus)) == Ok::<Seq<usize>, ProcessControlError>(cpus),
    decreases cpus.len(),
{
    let texts = cpu_texts(cpus);
    if cpus.len() == 0 {
        assert(cpus =~= Seq::<usize>::empty());
    } else {
        let shorter = cpus.drop_last();
        lemma_cpus_read_back(shorter);
        assert(texts.drop_last() =~= cpu_texts(shorter));
        lemma_single_cpu(cpus.last());
        assert(shorter + seq![cpus.last()] =~= cpus);
    }
}

/// The list of a mask reads back as the mask.
pub proof fn affinity_round_trip(cpus: Seq<usize>)
    requires
        cpus.len() > 0,
    ensures
        cpu_list(text::joined_fields(cpu_texts(cpus), ',')) == Ok::<
            Seq<usize>,
            ProcessControlError,
        >(cpus),
{
    let texts = cpu_texts(cpus);
    assert forall|i: int| 0 <= i < texts.len() implies !(#[trigger] texts[i]).contains(',') by {
        lemma_single_cpu(cpus[i]);
    }
    text::joined_fields_round_trip(texts, ',');
    lemma_cpus_read_back(cpus);
}

/// A range holds its two ends and every processor between them, in order, as
/// long as they lie no more than 4096 apart. Other ranges are refused.
pub proof fn ranges_hold_both_ends(start: usize, end: usize)
    ensures
        ({
            let part = text::decimal(start as nat) + seq!['-'] + text::decimal(end as nat);
            match part_cpus(part) {
                Ok(cpus) => start <= end <= start + 4_096 && cpus.len() == end - start + 1
                    && cpus.first() == start && cpus.last() == end && (forall|i: int|
                    0 <= i < cpus.len() ==> #[trigger] cpus[i] == start + i),
                Err(error) => !(start <= end <= start + 4_096) && error
                    == ProcessControlError::UnboundedCpuRange,
            }
        }),
{
    let first = text::decimal(start as nat);
    let last = text::decimal(end as nat);
    let part = first + seq!['-'] + last;
    text::decimal_round_trip(start as nat);
    text::decimal_round_trip(end as nat);
    assert forall|i: int| 0 <= i < first.len() implies part[i] != '-' by {
        assert(part[i] == first[i]);
        assert(text::is_digit(first[i]));
    }
    assert(part[first.len() as int] == '-');
    text::lemma_first_index_is(part, '-', first.len() as int);
    assert(part.take(first.len() as int) =~= first);
    assert(part.skip(first.len() as int + 1) =~= last);
    lemma_digits_are_trimmed(first);
    lemma_digits_are_trimmed(last);
}

/// A printed priority is the number it spells, below zero behind a minus sign.
pub proof fn priorities_keep_their_sign(value: nat)
    ensures
        value <= 2_147_483_647 ==> parsed_signed(text::decimal(value)) == Some(value as int),
        value > 2_147_483_647 ==> parsed_signed(text::decimal(value)) is None,
        value <= 2_147_483_648 ==> parsed_signed(seq!['-'] + text::decimal(value)) == Some(
            -(value as int),
        ),
        value > 2_147_483_648 ==> parsed_signed(seq!['-'] + text::decimal(value)) is None,
{
    text::decimal_round_trip(value);
    text::lemma_first_digit(value);
    let signed = seq!['-'] + text::decimal(value);
    assert(signed.drop_first() =~= text::decimal(value));
    assert(text::is_digit(text::decimal(value)[0]));
}

/// Priorities are adjusted by five steps at most, up as far as down.
pub proof fn priorities_move_five_steps_at_most(value: i32)
    ensures
        may_adjust(value) <==> value < 6 && value > -6,
        value > i32::MIN ==> may_adjust(value) == may_adjust((-value) as i32),
{
}

/// A printed affinity is the list behind the last colon, whatever stands before
/// it. A text without a colon is none.
pub proof fn the_list_stands_behind_the_last_colon(start: Seq<char>, list: Seq<char>)
    requires
        !list.contains(':'),
    ensures
        printed_affinity(start + seq![':'] + list) == cpu_list(text::trimmed(list)),
        printed_affinity(list) == Err::<Seq<usize>, ProcessControlError>(
            ProcessControlError::InvalidAffinity,
        ),
{
    let printed = start + seq![':'] + list;
    let at = start.len() as int + 1;
    assert forall|i: int| 0 <= i < list.len() implies list[i] != ':' by {
        assert(list.contains(list[i]));
    }
    assert forall|i: int| at <= i < printed.len() implies printed[i] != ':' by {
        assert(printed[i] == list[i - at]);
    }
    text::lemma_after_last(printed, ':', at);
    assert(printed.skip(at) =~= list);
    text::lemma_after_last(list, ':', 0);
}

} // verus!
