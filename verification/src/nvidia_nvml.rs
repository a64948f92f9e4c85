//! Readings of NVIDIA's management library.
//!
//! A reading that is missing or implausible is left out; the others stay.
use crate::text;
use vstd::prelude::*;

verus! {

/// A graphics processor as the monitor shows it. The readings are those that
/// come as whole numbers or as text.
#[derive(Clone, Debug, PartialEq, Eq)]
pub struct GpuSnapshot {
    pub card: String,
    pub vendor_id: String,
    pub model: String,
    pub device_id: Option<String>,
    pub driver: Option<String>,
    pub utilization_percent: Option<u32>,
    pub temperature_celsius: Option<u32>,
    pub clock_mhz: Option<u32>,
    pub vram_used_bytes: Option<u64>,
    pub vram_total_bytes: Option<u64>,
    pub power_milliwatts: Option<u32>,
    pub performance_level: Option<String>,
}

/// Whether a vendor is NVIDIA.
pub open spec fn nvidia_vendor(vendor_id: Seq<char>) -> bool {
    text::alike(text::without_hex_mark(vendor_id), "10de"@)
}

pub fn is_nvidia_vendor(vendor_id: &str) -> (result: bool)
    ensures
        result == nvidia_vendor(vendor_id@),
{
    let chars = text::chars_of(vendor_id);
    let id = text::trim_hex_mark(chars.as_slice());
    text::eq_ignore_ascii_case(id.as_slice(), "10de")
}

pub fn is_nvidia(gpu: &GpuSnapshot) -> (result: bool)
    ensures
        result == nvidia_vendor(gpu.vendor_id@),
{
    is_nvidia_vendor(gpu.vendor_id.as_str())
}

/// What the library answered about memory.
#[derive(Clone, Copy, Debug, PartialEq, Eq, Structural)]
pub enum MemoryReply {
    /// The library cannot be asked.
    Missing,
    Failed,
    Read { total: u64, used: u64 },
}

/// What the library answered; none where it cannot be asked or failed.
#[derive(Clone, Copy, Debug, PartialEq, Eq, Structural)]
pub struct NvmlReplies {
    pub utilization: Option<u32>,
    pub temperature: Option<u32>,
    pub clock: Option<u32>,
    pub memory: MemoryReply,
    pub milliwatts: Option<u32>,
}

/// A reading within its bounds.
pub open spec fn within(reading: Option<u32>, least: u32, most: u32) -> Option<u32> {
    match reading {
        Some(value) => if least <= value <= most {
            Some(value)
        } else {
            None
        },
        None => None,
    }
}

fn bounded(reading: Option<u32>, least: u32, most: u32) -> (result: Option<u32>)
    ensures
        result == within(reading, least, most),
{
    match reading {
        Some(value) => if least <= value && value <= most {
            Some(value)
        } else {
            None
        },
        None => None,
    }
}

/// Used and total memory after an answer.
pub open spec fn memory_after(before: (Option<u64>, Option<u64>), reply: MemoryReply) -> (
    Option<u64>,
    Option<u64>,
) {
    match reply {
        MemoryReply::Missing => before,
        MemoryReply::Failed => (None, None),
        MemoryReply::Read { total, used } => if used <= total {
            (Some(used), Some(total))
        } else {
            (None, None)
        },
    }
}

/// The load, the temperature and the clock that are shown of some replies.
pub open spec fn shown_readings(replies: NvmlReplies) -> (Option<u32>, Option<u32>, Option<u32>) {
    (
        within(replies.utilization, 0, 100),
        within(replies.temperature, 0, 150),
        within(replies.clock, 1, u32::MAX),
    )
}

/// Refreshes the readings of a processor that the library knows.
pub fn sample(gpu: &mut GpuSnapshot, replies: NvmlReplies)
    ensures
        (final(gpu).utilization_percent, final(gpu).temperature_celsius, final(gpu).clock_mhz)
            == shown_readings(replies),
        ({
            let (used, total) = memory_after(
                (old(gpu).vram_used_bytes, old(gpu).vram_total_bytes),
                replies.memory,
            );
            *final(gpu) == (GpuSnapshot {
                utilization_percent: within(replies.utilization, 0, 100),
                temperature_celsius: within(replies.temperature, 0, 150),
                clock_mhz: within(replies.clock, 1, u32::MAX),
                vram_used_bytes: used,
                vram_total_bytes: total,
                power_milliwatts: replies.milliwatts,
                ..*old(gpu)
            })
        }),
{
    gpu.utilization_percent = bounded(replies.utilization, 0, 100);
    gpu.temperature_celsius = bounded(replies.temperature, 0, 150);
    gpu.clock_mhz = bounded(replies.clock, 1, u32::MAX);
    match replies.memory {
        MemoryReply::Missing => {},
        MemoryReply::Failed => {
            gpu.vram_used_bytes = None;
            gpu.vram_total_bytes = None;
        },
        MemoryReply::Read { total, used } => {
            if used <= total {
                gpu.vram_used_bytes = Some(used);
                gpu.vram_total_bytes = Some(total);
            } else {
                gpu.vram_used_bytes = None;
                gpu.vram_total_bytes = None;
            }
        },
    }
    gpu.power_milliwatts = replies.milliwatts;
}

/// The name in a buffer: the text before the first zero byte, without spaces
/// around it, unless nothing is left.
pub open spec fn buffered_name(buffer: Seq<u8>) -> Option<Seq<char>> {
    let end = text::first_index(buffer, 0u8);
    let bytes = buffer.take(end);
    if end >= buffer.len() || !vstd::utf8::valid_utf8(bytes) || text::trimmed(
        vstd::utf8::decode_utf8(bytes),
    ).len() == 0 {
        None
    } else {
        Some(text::trimmed(vstd::utf8::decode_utf8(bytes)))
    }
}

/// Reads the name of a processor from the buffer that the library filled.
pub fn device_name(buffer: &[u8]) -> (result: Option<String>)
    ensures
        match result {
            Some(name) => buffered_name(buffer@) == Some(name@),
            None => buffered_name(buffer@) is None,
        },
{
    let end: usize = text::find_byte(buffer, 0u8);
    if end >= buffer.len() {
        return None;
    }
    let bytes = vstd::slice::slice_subrange(buffer, 0, end);
    assert(bytes@ =~= buffer@.take(end as int));
    match text::decode(bytes) {
        None => None,
        Some(decoded) => {
            let chars = text::chars_of(decoded.as_str());
            let name = text::trim(chars.as_slice());
            if name.len() == 0 {
                None
            } else {
                Some(text::string_of(name.as_slice()))
            }
        },
    }
}

/// Whether a text is the address of a device on the bus, such as
/// `0000:01:00.0`.
pub open spec fn is_slot_name(address: Seq<char>) -> bool {
    &&& address.len() == 12
    &&& forall|i: int|
        0 <= i < 12 ==> (if i == 4 || i == 7 {
            #[trigger] address[i] == ':'
        } else if i == 10 {
            address[i] == '.'
        } else {
            text::hex_digit_value(address[i]) is Some
        })
}

/// What follows a prefix on the first line that has it.
pub open spec fn first_after(lines: Seq<Seq<char>>, prefix: Seq<char>) -> Option<Seq<char>>
    decreases lines.len(),
{
    if lines.len() == 0 {
        None
    } else {
        match text::after_prefix(lines[0], prefix) {
            Some(rest) => Some(rest),
            None => first_after(lines.skip(1), prefix),
        }
    }
}

/// The address that a device's description gives.
pub open spec fn described_slot(uevent: Seq<char>) -> Option<Seq<char>> {
    match first_after(text::lines_of(uevent), "PCI_SLOT_NAME="@) {
        Some(address) => if is_slot_name(address) {
            Some(address)
        } else {
            None
        },
        None => None,
    }
}

fn has_slot_form(address: &[char]) -> (result: bool)
    ensures
        result == is_slot_name(address@),
{
    if address.len() != 12 {
        return false;
    }
    let mut index: usize = 0;
    while index < 12
        invariant
            index <= 12,
            address@.len() == 12,
            forall|i: int|
                0 <= i < index ==> (if i == 4 || i == 7 {
                    #[trigger] address@[i] == ':'
                } else if i == 10 {
                    address@[i] == '.'
                } else {
                    text::hex_digit_value(address@[i]) is Some
                }),
        decreases 12 - index,
    {
        let character = address[index];
        let fits = if index == 4 || index == 7 {
            character == ':'
        } else if index == 10 {
            character == '.'
        } else {
            text::hex_digit_of(character).is_some()
        };
        if !fits {
            assert(address@[index as int] == character);
            return false;
        }
        index = index + 1;
    }
    true
}

/// Reads the address that a device's description gives.
pub fn pci_slot_name(uevent: &str) -> (result: Option<String>)
    ensures
        match result {
            Some(address) => described_slot(uevent@) == Some(address@),
            None => described_slot(uevent@) is None,
        },
{
    let chars = text::chars_of(uevent);
    let lines = text::split_lines(chars.as_slice());
    let ghost all = text::views(lines@);
    let mut index: usize = 0;
    assert(all.skip(0) =~= all);
    while index < lines.len()
        invariant
            index <= lines@.len(),
            all == text::views(lines@),
            all == text::lines_of(uevent@),
            first_after(all, "PCI_SLOT_NAME="@) == first_after(
                all.skip(index as int),
                "PCI_SLOT_NAME="@,
            ),
        decreases lines@.len() - index,
    {
        assert(all.skip(index as int)[0] == lines@[index as int]@);
        assert(all.skip(index as int).skip(1) =~= all.skip(index + 1));
        if let Some(address) = text::strip_prefix(lines[index].as_slice(), "PCI_SLOT_NAME=") {
            if has_slot_form(address.as_slice()) {
                return Some(text::string_of(address.as_slice()));
            }
            return None;
        }
        index = index + 1;
    }
    None
}

/// A processor never shows more used memory than it has, and shows either
/// both numbers or none, once the library was asked.
pub proof fn memory_is_coherent(before: (Option<u64>, Option<u64>), reply: MemoryReply)
    requires
        reply != MemoryReply::Missing,
    ensures
        match memory_after(before, reply) {
            (Some(used), Some(total)) => used <= total,
            (None, None) => true,
            _ => false,
        },
{
}

/// A load is shown up to 100 percent, a temperature up to 150 degrees, and a
/// clock that runs. What is out of these bounds is left out, and each reading
/// stands for itself.
pub proof fn implausible_readings_are_left_out(replies: NvmlReplies, value: u32)
    ensures
        shown_readings(NvmlReplies { utilization: Some(value), ..replies }) == (
            if value <= 100 { Some(value) } else { None },
            shown_readings(replies).1,
            shown_readings(replies).2,
        ),
        shown_readings(NvmlReplies { temperature: Some(value), ..replies }) == (
            shown_readings(replies).0,
            if value <= 150 { Some(value) } else { None },
            shown_readings(replies).2,
        ),
        shown_readings(NvmlReplies { clock: Some(value), ..replies }) == (
            shown_readings(replies).0,
            shown_readings(replies).1,
            if value != 0 { Some(value) } else { None },
        ),
{
}

/// Memory that the library states is shown as stated, unless more is used than
/// there is. Where the library cannot be asked, what was shown stays.
pub proof fn stated_memory_is_shown(before: (Option<u64>, Option<u64>), total: u64, used: u64)
    ensures
        used <= total ==> memory_after(before, MemoryReply::Read { total, used }) == (
            Some(used),
            Some(total),
        ),
        used > total ==> memory_after(before, MemoryReply::Read { total, used }) == (
            None::<u64>,
            None::<u64>,
        ),
        memory_after(before, MemoryReply::Missing) == before,
        memory_after(before, MemoryReply::Failed) == (None::<u64>, None::<u64>),
{
}

/// A device's address is four digits, two, two and one, of base sixteen, with
/// colons and a point between them.
pub proof fn addresses_have_their_form(address: Seq<char>)
    requires
        is_slot_name(address),
    ensures
        address.len() == 12,
        address[4] == ':' && address[7] == ':' && address[10] == '.',
        text::hex_digit_value(address[0]) is Some && text::hex_digit_value(address[3]) is Some
            && text::hex_digit_value(address[5]) is Some && text::hex_digit_value(address[11])
            is Some,
{
}

/// A device's address stands on the first line that starts with its key.
pub proof fn addresses_stand_behind_their_key(
    before: Seq<Seq<char>>,
    address: Seq<char>,
    rest: Seq<Seq<char>>,
)
    requires
        forall|i: int|
            0 <= i < before.len() ==> text::after_prefix(
                #[trigger] before[i],
                "PCI_SLOT_NAME="@,
            ) is None,
    ensures
        first_after(before + seq!["PCI_SLOT_NAME="@ + address] + rest, "PCI_SLOT_NAME="@) == Some(
            address,
        ),
    decreases before.len(),
{
    let line = "PCI_SLOT_NAME="@ + address;
    let all = before + seq![line] + rest;
    text::starts_and_ends_are_cut("PCI_SLOT_NAME="@, address);
    if before.len() == 0 {
        assert(all[0] == line);
    } else {
        let later = before.skip(1);
        assert(all[0] == before[0]);
        assert(all.skip(1) =~= later + seq![line] + rest);
        assert forall|i: int| 0 <= i < later.len() implies text::after_prefix(
            #[trigger] later[i],
            "PCI_SLOT_NAME="@,
        ) is None by {
            assert(later[i] == before[i + 1]);
        }
        addresses_stand_behind_their_key(later, address, rest);
    }
}

/// A name in a buffer ends at the first zero byte. One without an end is none.
pub proof fn names_end_at_a_zero(name: Seq<char>, rest: Seq<u8>)
    requires
        !vstd::utf8::encode_utf8(name).contains(0u8),
        text::trimmed(name).len() > 0,
    ensures
        buffered_name(vstd::utf8::encode_utf8(name) + seq![0u8] + rest) == Some(
            text::trimmed(name),
        ),
        buffered_name(vstd::utf8::encode_utf8(name)) is None,
{
    let bytes = vstd::utf8::encode_utf8(name);
    let buffer = bytes + seq![0u8] + rest;
    assert forall|i: int| 0 <= i < bytes.len() implies bytes[i] != 0u8 by {
        assert(bytes.contains(bytes[i]));
    }
    assert forall|i: int| 0 <= i < bytes.len() implies buffer[i] != 0u8 by {
        assert(buffer[i] == bytes[i]);
    }
    text::lemma_first_index_is(buffer, 0u8, bytes.len() as int);
    text::lemma_first_index_is(bytes, 0u8, bytes.len() as int);
    assert(buffer.take(bytes.len() as int) =~= bytes);
    vstd::utf8::encode_utf8_decode_utf8(name);
    vstd::utf8::encode_utf8_valid_utf8(name);
}

} // verus!
