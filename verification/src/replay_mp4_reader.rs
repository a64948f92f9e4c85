//! What a player finds in a container: its tracks, and when each of their
//! samples is shown.
use crate::replay_media;
use crate::replay_media::{
    OpusPacketView, ReplayAudioSnapshot, ReplayVideoCodec, ReplayVideoStream,
};
use crate::replay_mp4;
use crate::replay_mp4::Mp4VideoError;
use crate::replay_ring;
use crate::replay_ring::PacketView;
use crate::wire;
use vstd::prelude::*;
use vstd::string::*;

verus! {

/// The number that the four characters of a box's kind stand for.
pub open spec fn kind_number(name: Seq<char>) -> int {
    name[0] as int * 0x100_0000 + name[1] as int * 0x1_0000 + name[2] as int * 0x100
        + name[3] as int
}

/// The number that four bytes at a place stand for.
pub open spec fn word_at(bytes: Seq<u8>, at: int) -> int {
    bytes[at] * 0x100_0000 + bytes[at + 1] * 0x1_0000 + bytes[at + 2] * 0x100 + bytes[at + 3]
}

/// The number that two bytes at a place stand for.
pub open spec fn short_at(bytes: Seq<u8>, at: int) -> int {
    bytes[at] * 0x100 + bytes[at + 1]
}

/// Whether bytes start with a whole box.
pub open spec fn starts_with_box(bytes: Seq<u8>) -> bool {
    bytes.len() >= 8 && 8 <= word_at(bytes, 0) <= bytes.len()
}

/// The contents of the first box of a kind in a run of boxes.
pub open spec fn child(boxes: Seq<u8>, kind: int) -> Option<Seq<u8>>
    decreases boxes.len(),
{
    if !starts_with_box(boxes) {
        None
    } else if word_at(boxes, 4) == kind {
        Some(boxes.subrange(8, word_at(boxes, 0)))
    } else {
        child(boxes.skip(word_at(boxes, 0)), kind)
    }
}

/// The contents of the track with a number in a run of boxes.
pub open spec fn track(boxes: Seq<u8>, number: int) -> Option<Seq<u8>>
    decreases boxes.len(),
{
    if !starts_with_box(boxes) {
        None
    } else {
        let contents = boxes.subrange(8, word_at(boxes, 0));
        if word_at(boxes, 4) == kind_number("trak"@) && (child(
            contents,
            kind_number("tkhd"@),
        ) matches Some(header) && word_at(header, 12) == number) {
            Some(contents)
        } else {
            track(boxes.skip(word_at(boxes, 0)), number)
        }
    }
}

/// What a player is told of a track: its media box.
pub open spec fn track_media(file: Seq<u8>, number: int) -> Option<Seq<u8>> {
    match child(file, kind_number("moov"@)) {
        None => None,
        Some(movie) => match track(movie, number) {
            None => None,
            Some(track) => child(track, kind_number("mdia"@)),
        },
    }
}

/// How many ticks a second of a track has.
pub open spec fn ticks_per_second(file: Seq<u8>, number: int) -> Option<int> {
    match track_media(file, number) {
        None => None,
        Some(media) => match child(media, kind_number("mdhd"@)) {
            None => None,
            Some(header) => Some(word_at(header, 12)),
        },
    }
}

/// What kind of samples a track has.
pub open spec fn track_kind(file: Seq<u8>, number: int) -> Option<int> {
    match track_media(file, number) {
        None => None,
        Some(media) => match child(media, kind_number("hdlr"@)) {
            None => None,
            Some(handler) => Some(word_at(handler, 8)),
        },
    }
}

/// The description that a track gives of its samples.
pub open spec fn sample_description(file: Seq<u8>, number: int, kind: Seq<char>) -> Option<
    Seq<u8>,
> {
    match track_media(file, number) {
        None => None,
        Some(media) => match child(media, kind_number("minf"@)) {
            None => None,
            Some(information) => match child(information, kind_number("stbl"@)) {
                None => None,
                Some(table) => match child(table, kind_number("stsd"@)) {
                    None => None,
                    Some(descriptions) => child(descriptions.skip(8), kind_number(kind)),
                },
            },
        },
    }
}

/// One sample as a player reads it.
pub ghost struct Sample {
    /// Whether it is the first of its fragment, whose base time is `base`.
    pub leads: bool,
    pub base: int,
    pub ticks: int,
    pub bytes: Seq<u8>,
    /// Whether it needs no other, where its run says so.
    pub sync: bool,
}

/// Whether a run states flags of its samples, besides duration and size.
pub open spec fn entry_bytes(run: Seq<u8>) -> int {
    if word_at(run, 0) == 0x0701 {
        12
    } else {
        8
    }
}

/// Bytes of the first samples of a run.
pub open spec fn run_bytes(run: Seq<u8>, count: int) -> int
    decreases count,
{
    if count <= 0 {
        0
    } else {
        run_bytes(run, count - 1) + word_at(run, 12 + entry_bytes(run) * (count - 1) + 4)
    }
}

/// A sample of a run. Its bytes are counted from the start of its fragment.
pub open spec fn run_sample(fragment: Seq<u8>, base: int, run: Seq<u8>, index: int) -> Sample {
    let entry = 12 + entry_bytes(run) * index;
    let start = word_at(run, 8) + run_bytes(run, index);
    Sample {
        leads: index == 0,
        base,
        ticks: word_at(run, entry),
        bytes: fragment.subrange(start, start + word_at(run, entry + 4)),
        sync: entry_bytes(run) == 8 || (word_at(run, entry + 8) / 0x1_0000) % 2 == 0,
    }
}

/// The samples of a track in one fragment, from the fragment's start on.
pub open spec fn fragment_samples(fragment: Seq<u8>, header: Seq<u8>, number: int) -> Option<
    Seq<Sample>,
> {
    match child(header, kind_number("traf"@)) {
        None => None,
        Some(part) => match (
            child(part, kind_number("tfhd"@)),
            child(part, kind_number("tfdt"@)),
            child(part, kind_number("trun"@)),
        ) {
            (Some(place), Some(time), Some(run)) => if word_at(place, 4) != number {
                Some(Seq::empty())
            } else if word_at(place, 0) != 0x2_0000 || word_at(time, 0) != 0x100_0000 || (word_at(
                run,
                0,
            ) != 0x0701 && word_at(run, 0) != 0x0301) {
                None
            } else {
                let base = word_at(time, 4) * 0x1_0000_0000 + word_at(time, 8);
                Some(
                    Seq::new(
                        word_at(run, 4) as nat,
                        |i: int| run_sample(fragment, base, run, i),
                    ),
                )
            },
            _ => None,
        },
    }
}

/// The samples of a track in a file, fragment after fragment.
pub open spec fn samples(file: Seq<u8>, number: int) -> Option<Seq<Sample>>
    decreases file.len(),
{
    if file.len() == 0 {
        Some(Seq::empty())
    } else if !starts_with_box(file) {
        None
    } else {
        let size = word_at(file, 0);
        match samples(file.skip(size), number) {
            None => None,
            Some(later) => if word_at(file, 4) == kind_number("moof"@) {
                match fragment_samples(file, file.subrange(8, size), number) {
                    None => None,
                    Some(first) => Some(first + later),
                }
            } else {
                Some(later)
            },
        }
    }
}

/// Whether some ticks are some nanoseconds, within one tick.
pub open spec fn lasts(ticks: int, nanoseconds: int, per_second: int) -> bool {
    ticks * 1_000_000_000 <= nanoseconds * per_second < (ticks + 1) * 1_000_000_000
}

/// Whether a sample shows its packet, one of those from `start` on: its bytes,
/// as long as until the next packet of its fragment, and the first of a
/// fragment as long after the first packet as its own. A fragment starts at
/// every keyframe and where the one before would last thirty seconds.
pub open spec fn sample_shows(
    shown: Seq<Sample>,
    packets: Seq<PacketView>,
    start: int,
    per_second: int,
    i: int,
) -> bool {
    let packet = packets[start + i];
    let offset = packet.timestamp_ns - packets[0].timestamp_ns;
    &&& shown[i].bytes == packet.bytes
    &&& shown[i].sync == packet.keyframe
    &&& packet.keyframe ==> shown[i].leads
    &&& 0 < i && shown[i].leads && !packet.keyframe ==> (offset - 30_000_000_000) * per_second
        >= shown[i - 1].base * 1_000_000_000
    &&& !shown[i].leads ==> (offset - 30_000_000_000) * per_second < (shown[i].base + 1)
        * 1_000_000_000
    &&& shown[i].leads ==> lasts(shown[i].base, offset, per_second)
    &&& lasts(
        shown[i].ticks,
        if i + 1 < shown.len() && !shown[i + 1].leads {
            packets[start + i + 1].timestamp_ns - packet.timestamp_ns
        } else {
            packet.duration_ns as int
        },
        per_second,
    )
}

/// Whether samples show the packets from `start` on, each of them one.
pub open spec fn shows(
    shown: Seq<Sample>,
    packets: Seq<PacketView>,
    start: int,
    per_second: int,
) -> bool {
    &&& shown.len() == packets.len() - start
    &&& shown.len() > 0 ==> shown[0].leads
    &&& forall|i: int|
        0 <= i < shown.len() ==> #[trigger] sample_shows(shown, packets, start, per_second, i)
}

proof fn lemma_word_of(bytes: Seq<u8>, at: int, value: u32)
    requires
        0 <= at,
        at + 4 <= bytes.len(),
        bytes.subrange(at, at + 4) == wire::be32(value),
    ensures
        word_at(bytes, at) == value,
{
    let part = bytes.subrange(at, at + 4);
    assert(part[0] == bytes[at] && part[1] == bytes[at + 1] && part[2] == bytes[at + 2] && part[3]
        == bytes[at + 3]);
    let top = value / 0x100_0000;
    let second = value / 0x1_0000 % 0x100;
    let third = value / 0x100 % 0x100;
    let low = value % 0x100;
    assert(value == top * 0x100_0000 + second * 0x1_0000 + third * 0x100 + low);
}

/// The word behind a known start.
proof fn lemma_word_behind(front: Seq<u8>, value: u32, back: Seq<u8>)
    ensures
        word_at(front + wire::be32(value) + back, front.len() as int) == value,
{
    let all = front + wire::be32(value) + back;
    let at = front.len() as int;
    assert(all.subrange(at, at + 4) =~= wire::be32(value));
    lemma_word_of(all, at, value);
}

proof fn lemma_box_front(kind: u32, contents: Seq<u8>, rest: Seq<u8>)
    requires
        contents.len() + 8 <= u32::MAX,
    ensures
        ({
            let all = replay_mp4::boxed(kind, contents) + rest;
            &&& starts_with_box(all)
            &&& word_at(all, 0) == contents.len() + 8
            &&& word_at(all, 4) == kind
            &&& all.subrange(8, contents.len() as int + 8) == contents
            &&& all.skip(contents.len() as int + 8) == rest
        }),
{
    let size = (contents.len() + 8) as u32;
    let all = replay_mp4::boxed(kind, contents) + rest;
    let none = Seq::<u8>::empty();
    assert(all =~= none + wire::be32(size) + (wire::be32(kind) + contents + rest));
    lemma_word_behind(none, size, wire::be32(kind) + contents + rest);
    assert(all =~= wire::be32(size) + wire::be32(kind) + (contents + rest));
    lemma_word_behind(wire::be32(size), kind, contents + rest);
    assert(all.subrange(8, contents.len() as int + 8) =~= contents);
    assert(all.skip(contents.len() as int + 8) =~= rest);
}

proof fn lemma_child(kind: u32, contents: Seq<u8>, rest: Seq<u8>, wanted: int)
    requires
        contents.len() + 8 <= u32::MAX,
    ensures
        child(replay_mp4::boxed(kind, contents) + rest, wanted) == (if kind == wanted {
            Some(contents)
        } else {
            child(rest, wanted)
        }),
{
    lemma_box_front(kind, contents, rest);
}

/// The kinds that the library writes are those that a player looks for.
proof fn lemma_kinds()
    ensures
        kind_number("ftyp"@) == replay_mp4::FTYP,
        kind_number("moov"@) == replay_mp4::MOOV,
        kind_number("mvhd"@) == replay_mp4::MVHD,
        kind_number("trak"@) == replay_mp4::TRAK,
        kind_number("tkhd"@) == replay_mp4::TKHD,
        kind_number("mdia"@) == replay_mp4::MDIA,
        kind_number("mdhd"@) == replay_mp4::MDHD,
        kind_number("moof"@) == replay_mp4::MOOF,
        kind_number("mfhd"@) == replay_mp4::MFHD,
        kind_number("traf"@) == replay_mp4::TRAF,
        kind_number("tfhd"@) == replay_mp4::TFHD,
        kind_number("tfdt"@) == replay_mp4::TFDT,
        kind_number("trun"@) == replay_mp4::TRUN,
        kind_number("mdat"@) == replay_mp4::MDAT,
        kind_number("mvex"@) == replay_mp4::MVEX,
{
    reveal_strlit("ftyp");
    reveal_strlit("moov");
    reveal_strlit("mvhd");
    reveal_strlit("trak");
    reveal_strlit("tkhd");
    reveal_strlit("mdia");
    reveal_strlit("mdhd");
    reveal_strlit("moof");
    reveal_strlit("mfhd");
    reveal_strlit("traf");
    reveal_strlit("tfhd");
    reveal_strlit("tfdt");
    reveal_strlit("trun");
    reveal_strlit("mdat");
    reveal_strlit("mvex");
}

proof fn lemma_word_in(front: Seq<u8>, back: Seq<u8>, at: int)
    requires
        0 <= at,
    ensures
        at + 4 <= front.len() ==> word_at(front + back, at) == word_at(front, at),
        at + 4 <= back.len() ==> word_at(front + back, front.len() + at) == word_at(back, at),
{
    let all = front + back;
    if at + 4 <= front.len() {
        assert(all[at] == front[at] && all[at + 1] == front[at + 1] && all[at + 2] == front[at + 2]
            && all[at + 3] == front[at + 3]);
    }
    if at + 4 <= back.len() {
        let from = front.len() as int;
        assert(all[from + at] == back[at] && all[from + at + 1] == back[at + 1] && all[from + at
            + 2] == back[at + 2] && all[from + at + 3] == back[at + 3]);
    }
}

/// Three words after each other.
proof fn lemma_three_words(first: u32, second: u32, third: u32)
    ensures
        ({
            let all = wire::be32(first) + wire::be32(second) + wire::be32(third);
            &&& all.len() == 12
            &&& word_at(all, 0) == first
            &&& word_at(all, 4) == second
            &&& word_at(all, 8) == third
        }),
{
    let all = wire::be32(first) + wire::be32(second) + wire::be32(third);
    assert(all.subrange(0, 4) =~= wire::be32(first));
    assert(all.subrange(4, 8) =~= wire::be32(second));
    assert(all.subrange(8, 12) =~= wire::be32(third));
    lemma_word_of(all, 0, first);
    lemma_word_of(all, 4, second);
    lemma_word_of(all, 8, third);
}

/// Whether a run's entries state packets.
spec fn entries_state(entries: Seq<u8>, packets: Seq<PacketView>, count: int) -> bool {
    &&& entries.len() == 12 * count
    &&& forall|i: int|
        0 <= i < count ==> {
            &&& replay_mp4::in_timescale(replay_mp4::shown_ns(packets, i)) == Some(
                #[trigger] word_at(entries, 12 * i),
            )
            &&& word_at(entries, 12 * i + 4) == packets[i].bytes.len()
            &&& word_at(entries, 12 * i + 8) == (if packets[i].keyframe {
                0x0200_0000int
            } else {
                0x0101_0000
            })
        }
}

proof fn lemma_entries(packets: Seq<PacketView>, count: int)
    requires
        0 <= count <= packets.len(),
        replay_mp4::sample_entries(packets, count) is Ok,
    ensures
        entries_state(replay_mp4::sample_entries(packets, count)->Ok_0, packets, count),
    decreases count,
{
    let entries = replay_mp4::sample_entries(packets, count)->Ok_0;
    if count > 0 {
        lemma_entries(packets, count - 1);
        let before = replay_mp4::sample_entries(packets, count - 1)->Ok_0;
        let entry = replay_mp4::sample_entry(packets, count - 1)->Ok_0;
        let ticks = replay_mp4::in_timescale(replay_mp4::shown_ns(packets, count - 1))->0;
        let flags: u32 = if packets[count - 1].keyframe {
            0x0200_0000
        } else {
            0x0101_0000
        };
        lemma_ticks(replay_mp4::shown_ns(packets, count - 1));
        lemma_three_words(ticks as u32, packets[count - 1].bytes.len() as u32, flags);
        assert(entries == before + entry);
        assert forall|i: int| 0 <= i < count implies {
            &&& replay_mp4::in_timescale(replay_mp4::shown_ns(packets, i)) == Some(
                #[trigger] word_at(entries, 12 * i),
            )
            &&& word_at(entries, 12 * i + 4) == packets[i].bytes.len()
            &&& word_at(entries, 12 * i + 8) == (if packets[i].keyframe {
                0x0200_0000int
            } else {
                0x0101_0000
            })
        } by {
            if i < count - 1 {
                assert(word_at(before, 12 * i) == word_at(before, 12 * i));
                lemma_word_in(before, entry, 12 * i);
                lemma_word_in(before, entry, 12 * i + 4);
                lemma_word_in(before, entry, 12 * i + 8);
            } else {
                lemma_word_in(before, entry, 0);
                lemma_word_in(before, entry, 4);
                lemma_word_in(before, entry, 8);
            }
        }
    }
}

/// Ticks of the video track are a millionth of a second.
proof fn lemma_ticks(nanoseconds: int)
    ensures
        replay_mp4::in_timescale(nanoseconds) matches Some(ticks) ==> {
            &&& lasts(ticks, nanoseconds, 1_000_000)
            &&& nanoseconds >= 0 ==> ticks >= 0
        },
{
}

/// The payload of a packet stands behind those before it.
proof fn lemma_payload_place(packets: Seq<PacketView>, index: int)
    requires
        0 <= index < packets.len(),
    ensures
        ({
            let start = replay_mp4::payload(packets.take(index)).len() as int;
            let all = replay_mp4::payload(packets);
            &&& start + packets[index].bytes.len() <= all.len()
            &&& all.subrange(start, start + packets[index].bytes.len()) == packets[index].bytes
        }),
    decreases packets.len(),
{
    let all = replay_mp4::payload(packets);
    let shorter = packets.drop_last();
    let start = replay_mp4::payload(packets.take(index)).len() as int;
    if index == packets.len() - 1 {
        assert(packets.take(index) =~= shorter);
        assert(all.subrange(start, start + packets[index].bytes.len()) =~= packets[index].bytes);
    } else {
        lemma_payload_place(shorter, index);
        assert(shorter.take(index) =~= packets.take(index));
        let before = replay_mp4::payload(shorter);
        assert(all.subrange(start, start + packets[index].bytes.len()) =~= before.subrange(
            start,
            start + packets[index].bytes.len(),
        ));
    }
}

proof fn lemma_payload_before(packets: Seq<PacketView>, index: int)
    requires
        0 <= index < packets.len(),
    ensures
        replay_mp4::payload(packets.take(index + 1)).len() == replay_mp4::payload(
            packets.take(index),
        ).len() + packets[index].bytes.len(),
{
    assert(packets.take(index + 1).drop_last() =~= packets.take(index));
}

proof fn lemma_run_words(flags: u32, data_offset: u32, count: u32, entries: Seq<u8>)
    requires
        flags < 0x100_0000,
    ensures
        ({
            let run = replay_mp4::full(0, flags) + wire::be32(count) + wire::be32(data_offset)
                + entries;
            &&& run.len() == 12 + entries.len()
            &&& word_at(run, 0) == flags
            &&& word_at(run, 4) == count
            &&& word_at(run, 8) == data_offset
            &&& forall|at: int|
                0 <= at && at + 4 <= entries.len() ==> #[trigger] word_at(entries, at) == word_at(
                    run,
                    12 + at,
                )
        }),
{
    let front = replay_mp4::full(0, flags) + wire::be32(count) + wire::be32(data_offset);
    let run = front + entries;
    lemma_full(0, flags);
    assert(front.subrange(0, 4) =~= wire::be32(flags));
    assert(front.subrange(4, 8) =~= wire::be32(count));
    assert(front.subrange(8, 12) =~= wire::be32(data_offset));
    lemma_word_of(front, 0, flags);
    lemma_word_of(front, 4, count);
    lemma_word_of(front, 8, data_offset);
    lemma_word_in(front, entries, 0);
    lemma_word_in(front, entries, 4);
    lemma_word_in(front, entries, 8);
    assert forall|at: int| 0 <= at && at + 4 <= entries.len() implies #[trigger] word_at(entries, at)
        == word_at(run, 12 + at) by {
        lemma_word_in(front, entries, at);
    }
}

/// A version and its flags are one word.
#[verifier::spinoff_prover]
proof fn lemma_full(version: u8, flags: u32)
    requires
        flags < 0x100_0000,
        version <= 1,
    ensures
        replay_mp4::full(version, flags) == wire::be32((version * 0x100_0000 + flags) as u32),
{
    let word = (version * 0x100_0000 + flags) as u32;
    if version == 0 {
        assert(word == flags);
        assert(word / 0x100_0000 == 0);
    } else {
        assert(word == 0x100_0000 + flags);
        assert(word / 0x100_0000 == 1);
        assert(word / 0x1_0000 == 0x100 + flags / 0x1_0000);
        assert(word / 0x100 == 0x1_0000 + flags / 0x100);
    }
    assert(word / 0x1_0000 % 0x100 == flags / 0x1_0000 % 0x100);
    assert(word / 0x100 % 0x100 == flags / 0x100 % 0x100);
    assert(word % 0x100 == flags % 0x100);
    assert(replay_mp4::full(version, flags) =~= wire::be32(word));
}

/// The track run of a fragment.
spec fn run_of(run_flags: u32, count: u32, data_offset: u32, entries: Seq<u8>) -> Seq<u8> {
    replay_mp4::full(0, run_flags) + wire::be32(count) + wire::be32(data_offset) + entries
}

/// A long number is two words.
proof fn lemma_long(front: Seq<u8>, value: u64)
    ensures
        ({
            let all = front + wire::be64(value);
            word_at(all, front.len() as int) * 0x1_0000_0000 + word_at(all, front.len() as int + 4)
                == value
        }),
{
    let high = (value / 0x1_0000_0000) as u32;
    let low = (value % 0x1_0000_0000) as u32;
    let all = front + wire::be64(value);
    assert(all =~= front + wire::be32(high) + wire::be32(low));
    lemma_word_behind(front, high, wire::be32(low));
    let none = Seq::<u8>::empty();
    assert(all =~= (front + wire::be32(high)) + wire::be32(low) + none);
    lemma_word_behind(front + wire::be32(high), low, none);
}

/// A player finds the parts of a fragment's header.
#[verifier::spinoff_prover]
#[verifier::rlimit(60)]
proof fn lemma_header_parts(
    sequence: u32,
    track: u32,
    base_time: u64,
    run_flags: u32,
    count: u32,
    data_offset: u32,
    entries: Seq<u8>,
    fragment: Seq<u8>,
    number: int,
)
    requires
        entries.len() + 200 <= u32::MAX,
        run_flags == 0x0701 || run_flags == 0x0301,
    ensures
        ({
            let header = replay_mp4::fragment_box(
                sequence,
                track,
                base_time,
                run_flags,
                count,
                data_offset,
                entries,
            );
            let run = run_of(run_flags, count, data_offset, entries);
            &&& header.len() == entries.len() + 88
            &&& header == replay_mp4::boxed(replay_mp4::MOOF, header.skip(8))
            &&& fragment_samples(fragment, header.skip(8), number) == (if number == track {
                Some(
                    Seq::new(
                        count as nat,
                        |i: int| run_sample(fragment, base_time as int, run, i),
                    ),
                )
            } else {
                Some(Seq::<Sample>::empty())
            })
        }),
{
    reveal(replay_mp4::fragment_box);
    lemma_kinds();
    let none = Seq::<u8>::empty();
    let place = replay_mp4::full(0, 0x0002_0000) + wire::be32(track);
    let time = replay_mp4::full(1, 0) + wire::be64(base_time);
    let run = run_of(run_flags, count, data_offset, entries);
    let last = replay_mp4::boxed(replay_mp4::TRUN, run);
    let middle = replay_mp4::boxed(replay_mp4::TFDT, time);
    let part = replay_mp4::boxed(replay_mp4::TFHD, place) + middle + last;
    let order = replay_mp4::full(0, 0) + wire::be32(sequence);
    let header = replay_mp4::boxed(replay_mp4::MFHD, order) + replay_mp4::boxed(
        replay_mp4::TRAF,
        part,
    );
    let whole = replay_mp4::boxed(replay_mp4::MOOF, header);
    assert(whole.skip(8) =~= header);
    lemma_full(0, 0x0002_0000);
    lemma_full(1, 0);
    lemma_run_words(run_flags, data_offset, count, entries);
    assert(place =~= wire::be32(0x0002_0000) + wire::be32(track) + none);
    lemma_word_behind(none, 0x0002_0000, wire::be32(track));
    assert(none + wire::be32(0x0002_0000) + wire::be32(track) =~= place);
    lemma_word_behind(wire::be32(0x0002_0000), track, none);
    lemma_word_behind(none, 0x0100_0000, wire::be64(base_time));
    assert(none + wire::be32(0x0100_0000) + wire::be64(base_time) =~= time);
    lemma_long(replay_mp4::full(1, 0), base_time);
    // The boxes of the fragment's track.
    assert(part =~= replay_mp4::boxed(replay_mp4::TFHD, place) + (middle + last));
    lemma_child(replay_mp4::TFHD, place, middle + last, kind_number("tfhd"@));
    lemma_child(replay_mp4::TFHD, place, middle + last, kind_number("tfdt"@));
    lemma_child(replay_mp4::TFHD, place, middle + last, kind_number("trun"@));
    lemma_child(replay_mp4::TFDT, time, last, kind_number("tfdt"@));
    lemma_child(replay_mp4::TFDT, time, last, kind_number("trun"@));
    assert(last + none =~= last);
    lemma_child(replay_mp4::TRUN, run, none, kind_number("trun"@));
    let track_box = replay_mp4::boxed(replay_mp4::TRAF, part);
    lemma_child(replay_mp4::MFHD, order, track_box, kind_number("traf"@));
    assert(track_box + none =~= track_box);
    lemma_child(replay_mp4::TRAF, part, none, kind_number("traf"@));
    let made = |i: int| run_sample(fragment, base_time as int, run, i);
    assert(Seq::new(count as nat, made) =~= Seq::new(
        count as nat,
        |i: int| run_sample(fragment, base_time as int, run, i),
    ));
}

/// A player reads a fragment and goes on behind it.
#[verifier::spinoff_prover]
#[verifier::rlimit(60)]
proof fn lemma_fragment_read(header: Seq<u8>, media: Seq<u8>, rest: Seq<u8>, number: int)
    requires
        header.len() + 8 <= u32::MAX,
        media.len() + 8 <= u32::MAX,
        samples(rest, number) is Some,
    ensures
        ({
            let all = replay_mp4::boxed(replay_mp4::MOOF, header) + replay_mp4::boxed(
                replay_mp4::MDAT,
                media,
            ) + rest;
            samples(all, number) == (match fragment_samples(all, header, number) {
                Some(first) => Some(first + samples(rest, number)->0),
                None => None,
            })
        }),
{
    lemma_kinds();
    let tail = replay_mp4::boxed(replay_mp4::MDAT, media) + rest;
    let all = replay_mp4::boxed(replay_mp4::MOOF, header) + replay_mp4::boxed(
        replay_mp4::MDAT,
        media,
    ) + rest;
    assert(all =~= replay_mp4::boxed(replay_mp4::MOOF, header) + tail);
    lemma_box_front(replay_mp4::MDAT, media, rest);
    lemma_box_front(replay_mp4::MOOF, header, tail);
    assert(samples(tail, number) == samples(rest, number));
}

/// A player passes over a box that is no fragment.
proof fn lemma_box_skipped(kind: u32, contents: Seq<u8>, rest: Seq<u8>, number: int)
    requires
        contents.len() + 8 <= u32::MAX,
        kind != replay_mp4::MOOF,
        samples(rest, number) is Some,
    ensures
        samples(replay_mp4::boxed(kind, contents) + rest, number) == samples(rest, number),
{
    lemma_kinds();
    lemma_box_front(kind, contents, rest);
}

/// What one video fragment shows: each packet's bytes as long as until the
/// next packet of the fragment, and the first one at its own time.
spec fn fragment_shows(shown: Seq<Sample>, part: Seq<PacketView>, origin_ns: u64) -> bool {
    &&& shown.len() == part.len()
    &&& forall|i: int|
        0 <= i < part.len() ==> {
            &&& (#[trigger] shown[i]).leads == (i == 0)
            &&& shown[i].bytes == part[i].bytes
            &&& shown[i].sync == part[i].keyframe
            &&& lasts(shown[i].base, part[0].timestamp_ns - origin_ns, 1_000_000)
            &&& lasts(shown[i].ticks, replay_mp4::shown_ns(part, i), 1_000_000)
        }
}

proof fn lemma_run_bytes(run: Seq<u8>, part: Seq<PacketView>, count: int)
    requires
        0 <= count <= part.len(),
        word_at(run, 0) == 0x0701,
        forall|i: int|
            0 <= i < part.len() ==> #[trigger] word_at(run, 12 + 12 * i + 4) == part[i].bytes.len(),
    ensures
        run_bytes(run, count) == replay_mp4::payload(part.take(count)).len(),
    decreases count,
{
    if count > 0 {
        lemma_run_bytes(run, part, count - 1);
        lemma_payload_before(part, count - 1);
        assert(word_at(run, 12 + 12 * (count - 1) + 4) == part[count - 1].bytes.len());
    } else {
        assert(part.take(0) =~= Seq::<PacketView>::empty());
    }
}

/// Where a player finds the bytes of a sample.
proof fn lemma_sample_bytes(
    all: Seq<u8>,
    offset: int,
    run: Seq<u8>,
    part: Seq<PacketView>,
    i: int,
)
    requires
        0 <= i < part.len(),
        0 <= offset,
        offset + replay_mp4::payload(part).len() <= all.len(),
        all.subrange(offset, offset + replay_mp4::payload(part).len()) == replay_mp4::payload(part),
        word_at(run, 0) == 0x0701,
        forall|k: int|
            0 <= k < part.len() ==> #[trigger] word_at(run, 12 + 12 * k + 4) == part[k].bytes.len(),
    ensures
        ({
            let start = offset + run_bytes(run, i);
            all.subrange(start, start + part[i].bytes.len()) == part[i].bytes
        }),
{
    let media = replay_mp4::payload(part);
    lemma_run_bytes(run, part, i);
    lemma_payload_place(part, i);
    let start = replay_mp4::payload(part.take(i)).len() as int;
    let length = part[i].bytes.len() as int;
    let from = offset + start;
    assert(all.subrange(from, from + length) =~= media.subrange(start, start + length));
}

#[verifier::spinoff_prover]
#[verifier::rlimit(60)]
proof fn lemma_video_fragment_shown(
    sequence: u32,
    origin_ns: u64,
    part: Seq<PacketView>,
    rest: Seq<u8>,
)
    requires
        part.len() > 0,
        replay_mp4::video_fragment(sequence, origin_ns, part) is Ok,
        samples(rest, 1) is Some,
    ensures
        ({
            let all = replay_mp4::video_fragment(sequence, origin_ns, part)->Ok_0 + rest;
            &&& samples(all, 1) is Some
            &&& samples(all, 1)->0.len() == part.len() + samples(rest, 1)->0.len()
            &&& samples(all, 1)->0.skip(part.len() as int) == samples(rest, 1)->0
            &&& fragment_shows(samples(all, 1)->0.take(part.len() as int), part, origin_ns)
        }),
{
    reveal(replay_mp4::video_fragment_header);
    reveal(replay_mp4::video_header);
    let fragment = replay_mp4::video_fragment(sequence, origin_ns, part)->Ok_0;
    let all = fragment + rest;
    let base_time = replay_mp4::in_timescale(part[0].timestamp_ns - origin_ns)->0 as u64;
    lemma_ticks(part[0].timestamp_ns - origin_ns);
    let provisional = replay_mp4::video_header(sequence, base_time, part, 0)->Ok_0;
    let entries = replay_mp4::sample_entries(part, part.len() as int)->Ok_0;
    let offset = (provisional.len() + 8) as u32;
    let count = part.len() as u32;
    let media = replay_mp4::payload(part);
    let header = replay_mp4::fragment_box(
        sequence,
        replay_mp4::TRACK_ID,
        base_time,
        0x0701,
        count,
        offset,
        entries,
    );
    lemma_entries(part, part.len() as int);
    lemma_header_room(sequence, base_time, count, 0, entries);
    lemma_header_parts(
        sequence,
        replay_mp4::TRACK_ID,
        base_time,
        0x0701,
        count,
        0,
        entries,
        all,
        1,
    );
    lemma_header_parts(
        sequence,
        replay_mp4::TRACK_ID,
        base_time,
        0x0701,
        count,
        offset,
        entries,
        all,
        1,
    );
    assert(fragment == header + replay_mp4::boxed(replay_mp4::MDAT, media));
    lemma_fragment_read(header.skip(8), media, rest, 1);
    let run = run_of(0x0701, count, offset, entries);
    lemma_run_words(0x0701, offset, count, entries);
    let shown = Seq::new(count as nat, |i: int| run_sample(all, base_time as int, run, i));
    let later = samples(rest, 1)->0;
    assert(samples(all, 1) == Some(shown + later));
    assert(all.subrange(offset as int, offset + media.len()) =~= media);
    assert((shown + later).take(part.len() as int) =~= shown);
    assert((shown + later).skip(part.len() as int) =~= later);
    assert forall|i: int| 0 <= i < part.len() implies #[trigger] word_at(run, 12 + 12 * i + 4)
        == part[i].bytes.len() by {
        assert(word_at(entries, 12 * i) == word_at(run, 12 + 12 * i));
        assert(word_at(entries, 12 * i + 4) == word_at(run, 12 + (12 * i + 4)));
    }
    assert forall|i: int| 0 <= i < part.len() implies {
        &&& (#[trigger] shown[i]).leads == (i == 0)
        &&& shown[i].bytes == part[i].bytes
        &&& shown[i].sync == part[i].keyframe
        &&& lasts(shown[i].base, part[0].timestamp_ns - origin_ns, 1_000_000)
        &&& lasts(shown[i].ticks, replay_mp4::shown_ns(part, i), 1_000_000)
    } by {
        assert(word_at(entries, 12 * i) == word_at(run, 12 + 12 * i));
        assert(word_at(entries, 12 * i + 4) == word_at(run, 12 + (12 * i + 4)));
        assert(word_at(entries, 12 * i + 8) == word_at(run, 12 + (12 * i + 8)));
        lemma_ticks(replay_mp4::shown_ns(part, i));
        lemma_sample_bytes(all, offset as int, run, part, i);
    }
}

/// A header that fits its length field leaves room for its entries.
proof fn lemma_header_room(
    sequence: u32,
    base_time: u64,
    count: u32,
    data_offset: u32,
    entries: Seq<u8>,
)
    requires
        replay_mp4::fragment_box(
            sequence,
            replay_mp4::TRACK_ID,
            base_time,
            0x0701,
            count,
            data_offset,
            entries,
        ).len() + 8 <= i32::MAX,
    ensures
        entries.len() + 200 <= u32::MAX,
{
    reveal(replay_mp4::fragment_box);
}

/// Where a fragment ends: at the first keyframe behind its start, or the first
/// packet that comes thirty seconds after it.
proof fn lemma_boundary(packets: Seq<PacketView>, start: int, at: int)
    requires
        0 <= start < at <= packets.len(),
    ensures
        ({
            let end = replay_mp4::next_boundary(packets, start, at);
            &&& at <= end <= packets.len()
            &&& forall|k: int|
                at <= k < end ==> !(#[trigger] packets[k]).keyframe && packets[k].timestamp_ns
                    - packets[start].timestamp_ns < 30_000_000_000
            &&& end < packets.len() && !packets[end].keyframe ==> packets[end].timestamp_ns
                - packets[start].timestamp_ns >= 30_000_000_000
        }),
    decreases packets.len() - at,
{
    if at < packets.len() && !packets[at].keyframe && packets[at].timestamp_ns
        - packets[start].timestamp_ns < 30_000_000_000 {
        lemma_boundary(packets, start, at + 1);
    }
}

#[verifier::spinoff_prover]
#[verifier::rlimit(60)]
proof fn lemma_video_shown(
    packets: Seq<PacketView>,
    start: int,
    sequence: u32,
    rest: Seq<u8>,
)
    requires
        0 <= start <= packets.len(),
        packets.len() > 0,
        replay_ring::strictly_ordered(packets),
        replay_mp4::video_fragments(packets, packets[0].timestamp_ns, start, sequence) is Ok,
        samples(rest, 1) == Some(Seq::<Sample>::empty()),
    ensures
        ({
            let written = replay_mp4::video_fragments(
                packets,
                packets[0].timestamp_ns,
                start,
                sequence,
            )->Ok_0.0;
            samples(written + rest, 1) matches Some(shown) && shows(
                shown,
                packets,
                start,
                1_000_000,
            )
        }),
    decreases packets.len() - start,
{
    let origin = packets[0].timestamp_ns;
    let written = replay_mp4::video_fragments(packets, origin, start, sequence)->Ok_0.0;
    if start == packets.len() {
        assert(written + rest =~= rest);
    } else {
        lemma_boundary(packets, start, start + 1);
        let end = replay_mp4::next_boundary(packets, start, start + 1);
        let number = replay_mp4::next_sequence(sequence);
        let part = packets.subrange(start, end);
        let fragment = replay_mp4::video_fragment(number, origin, part)->Ok_0;
        let later = replay_mp4::video_fragments(packets, origin, end, number)->Ok_0.0;
        lemma_video_shown(packets, end, number, rest);
        lemma_video_fragment_shown(number, origin, part, later + rest);
        assert(written + rest =~= fragment + (later + rest));
        let shown = samples(written + rest, 1)->0;
        let behind = samples(later + rest, 1)->0;
        let ahead = shown.take(part.len() as int);
        assert(shown =~= ahead + behind);
        lemma_shown_together(packets, start, end, shown, ahead, behind);
    }
}

/// A fragment and what comes behind it show their packets together.
#[verifier::spinoff_prover]
#[verifier::rlimit(60)]
proof fn lemma_shown_together(
    packets: Seq<PacketView>,
    start: int,
    end: int,
    shown: Seq<Sample>,
    ahead: Seq<Sample>,
    behind: Seq<Sample>,
)
    requires
        0 <= start < end <= packets.len(),
        replay_ring::strictly_ordered(packets),
        shown == ahead + behind,
        fragment_shows(ahead, packets.subrange(start, end), packets[0].timestamp_ns),
        shows(behind, packets, end, 1_000_000),
        forall|k: int|
            start < k < end ==> !(#[trigger] packets[k]).keyframe && packets[k].timestamp_ns
                - packets[start].timestamp_ns < 30_000_000_000,
        end < packets.len() && !packets[end].keyframe ==> packets[end].timestamp_ns
            - packets[start].timestamp_ns >= 30_000_000_000,
    ensures
        shows(shown, packets, start, 1_000_000),
{
    let part = packets.subrange(start, end);
    let length = end - start;
    assert forall|i: int| 0 <= i < shown.len() implies #[trigger] sample_shows(
        shown,
        packets,
        start,
        1_000_000,
        i,
    ) by {
        if i < length {
            assert(shown[i] == ahead[i]);
            assert(part[i] == packets[start + i]);
            assert(part[0] == packets[start]);
            if 0 < i {
                assert(!packets[start + i].keyframe);
            }
            if i + 1 < length {
                assert(shown[i + 1] == ahead[i + 1]);
                assert(part[i + 1] == packets[start + i + 1]);
            } else if i + 1 < shown.len() {
                assert(shown[i + 1] == behind[0]);
            }
        } else {
            let j = i - length;
            assert(sample_shows(behind, packets, end, 1_000_000, j));
            assert(shown[i] == behind[j]);
            if j + 1 < behind.len() {
                assert(shown[i + 1] == behind[j + 1]);
            }
            if j == 0 {
                assert(shown[i - 1] == ahead[length - 1]);
            } else {
                assert(shown[i - 1] == behind[j - 1]);
            }
        }
    }
}

/// The first track of a run of boxes.
proof fn lemma_track(contents: Seq<u8>, rest: Seq<u8>, header: Seq<u8>, number: int)
    requires
        contents.len() + 8 <= u32::MAX,
        child(contents, kind_number("tkhd"@)) == Some(header),
    ensures
        track(replay_mp4::boxed(replay_mp4::TRAK, contents) + rest, number) == (if word_at(
            header,
            12,
        ) == number {
            Some(contents)
        } else {
            track(rest, number)
        }),
{
    lemma_kinds();
    lemma_box_front(replay_mp4::TRAK, contents, rest);
}

proof fn lemma_not_a_track(kind: u32, contents: Seq<u8>, rest: Seq<u8>, number: int)
    requires
        contents.len() + 8 <= u32::MAX,
        kind != replay_mp4::TRAK,
    ensures
        track(replay_mp4::boxed(kind, contents) + rest, number) == track(rest, number),
{
    lemma_kinds();
    lemma_box_front(kind, contents, rest);
}

/// Where a media header states its ticks.
proof fn lemma_media_header(per_second: u32)
    ensures
        word_at(replay_mp4::media_header(per_second), 12) == per_second,
        replay_mp4::media_header(per_second).len() == 24,
{
    let front = replay_mp4::full(0, 0) + wire::zeros(8);
    let back = wire::zeros(4) + wire::be16(0x55c4) + wire::zeros(2);
    assert(replay_mp4::media_header(per_second) =~= front + wire::be32(per_second) + back);
    lemma_word_behind(front, per_second, back);
}

/// The parts of a media box.
#[verifier::spinoff_prover]
proof fn lemma_media_parts(times: Seq<u8>, handler: Seq<u8>, information: Seq<u8>)
    requires
        times.len() + handler.len() + information.len() + 24 <= u32::MAX,
    ensures
        ({
            let media = replay_mp4::boxed(replay_mp4::MDHD, times) + replay_mp4::boxed(
                replay_mp4::HDLR,
                handler,
            ) + replay_mp4::boxed(replay_mp4::MINF, information);
            &&& child(media, kind_number("mdhd"@)) == Some(times)
            &&& child(media, kind_number("hdlr"@)) == Some(handler)
            &&& child(media, kind_number("minf"@)) == Some(information)
        }),
{
    lemma_kinds();
    reveal_strlit("minf");
    reveal_strlit("hdlr");
    let none = Seq::<u8>::empty();
    let first = replay_mp4::boxed(replay_mp4::MDHD, times);
    let second = replay_mp4::boxed(replay_mp4::HDLR, handler);
    let last = replay_mp4::boxed(replay_mp4::MINF, information);
    assert(first + second + last =~= first + (second + last));
    lemma_child(replay_mp4::MDHD, times, second + last, kind_number("mdhd"@));
    lemma_child(replay_mp4::MDHD, times, second + last, kind_number("minf"@));
    lemma_child(replay_mp4::MDHD, times, second + last, kind_number("hdlr"@));
    lemma_child(replay_mp4::HDLR, handler, last, kind_number("hdlr"@));
    lemma_child(replay_mp4::HDLR, handler, last, kind_number("minf"@));
    assert(last =~= last + none);
    lemma_child(replay_mp4::MINF, information, none, kind_number("minf"@));
}

/// Where a handler states its kind.
proof fn lemma_handler(kind: u32, name: Seq<u8>)
    ensures
        word_at(replay_mp4::handler(kind, name), 8) == kind,
{
    let front = replay_mp4::full(0, 0) + wire::zeros(4);
    let back = wire::zeros(12) + name;
    assert(replay_mp4::handler(kind, name) =~= front + wire::be32(kind) + back);
    lemma_word_behind(front, kind, back);
}

/// The parts of a track.
#[verifier::spinoff_prover]
proof fn lemma_track_parts(header: Seq<u8>, media: Seq<u8>)
    requires
        header.len() + media.len() + 16 <= u32::MAX,
    ensures
        ({
            let contents = replay_mp4::boxed(replay_mp4::TKHD, header) + replay_mp4::boxed(
                replay_mp4::MDIA,
                media,
            );
            &&& child(contents, kind_number("tkhd"@)) == Some(header)
            &&& child(contents, kind_number("mdia"@)) == Some(media)
        }),
{
    lemma_kinds();
    let none = Seq::<u8>::empty();
    let second = replay_mp4::boxed(replay_mp4::MDIA, media);
    lemma_child(replay_mp4::TKHD, header, second, kind_number("tkhd"@));
    lemma_child(replay_mp4::TKHD, header, second, kind_number("mdia"@));
    assert(second =~= second + none);
    lemma_child(replay_mp4::MDIA, media, none, kind_number("mdia"@));
}

/// The number in a video track's header.
proof fn lemma_video_track_header(stream: ReplayVideoStream)
    ensures
        word_at(replay_mp4::video_track_header(stream), 12) == 1,
{
    let header = replay_mp4::video_track_header(stream);
    let front = replay_mp4::full(0, 7) + wire::zeros(8);
    let back = wire::zeros(24) + replay_mp4::unity_matrix() + wire::be32(
        replay_mp4::fixed_point(stream.width),
    ) + wire::be32(replay_mp4::fixed_point(stream.height));
    assert(header =~= front + wire::be32(1) + back);
    lemma_word_behind(front, 1, back);
}

/// What a player reads of a video track.
#[verifier::spinoff_prover]
proof fn lemma_video_track(stream: ReplayVideoStream)
    requires
        replay_mp4::video_track(stream).len() + 8 <= u32::MAX,
    ensures
        ({
            let contents = replay_mp4::video_track(stream);
            &&& child(contents, kind_number("tkhd"@)) matches Some(header) && word_at(header, 12)
                == 1
            &&& child(contents, kind_number("mdia"@)) == Some(replay_mp4::video_media(stream))
            &&& child(replay_mp4::video_media(stream), kind_number("mdhd"@)) matches Some(header)
                && word_at(header, 12) == 1_000_000
            &&& child(replay_mp4::video_media(stream), kind_number("hdlr"@)) matches Some(handler)
                && word_at(handler, 8) == kind_number("vide"@)
            &&& child(replay_mp4::video_media(stream), kind_number("minf"@)) == Some(
                replay_mp4::video_information(stream),
            )
        }),
{
    reveal(replay_mp4::video_track);
    reveal_strlit("vide");
    lemma_video_track_header(stream);
    lemma_handler(replay_mp4::VIDE, replay_mp4::VIDEO_HANDLER.spec_bytes());
    lemma_track_parts(replay_mp4::video_track_header(stream), replay_mp4::video_media(stream));
    lemma_media_header(replay_mp4::TIMESCALE);
    lemma_media_parts(
        replay_mp4::media_header(replay_mp4::TIMESCALE),
        replay_mp4::handler(replay_mp4::VIDE, replay_mp4::VIDEO_HANDLER.spec_bytes()),
        replay_mp4::video_information(stream),
    );
}

/// A player finds the movie behind the file type.
#[verifier::spinoff_prover]
proof fn lemma_movie(movie: Seq<u8>, rest: Seq<u8>)
    requires
        movie.len() + 8 <= u32::MAX,
    ensures
        child(
            replay_mp4::file_type() + replay_mp4::boxed(replay_mp4::MOOV, movie) + rest,
            kind_number("moov"@),
        ) == Some(movie),
        forall|number: int| #[trigger]
            samples(rest, number) is Some ==> samples(
                replay_mp4::file_type() + replay_mp4::boxed(replay_mp4::MOOV, movie) + rest,
                number,
            ) == samples(rest, number),
{
    reveal(replay_mp4::file_type);
    lemma_kinds();
    let brands = wire::be32(replay_mp4::ISOM) + wire::be32(0x200) + wire::be32(replay_mp4::ISOM)
        + wire::be32(replay_mp4::ISO6) + wire::be32(replay_mp4::AVC1) + wire::be32(
        replay_mp4::MP41,
    );
    let behind = replay_mp4::boxed(replay_mp4::MOOV, movie) + rest;
    assert(replay_mp4::file_type() + replay_mp4::boxed(replay_mp4::MOOV, movie) + rest
        =~= replay_mp4::boxed(replay_mp4::FTYP, brands) + behind);
    lemma_child(replay_mp4::FTYP, brands, behind, kind_number("moov"@));
    lemma_child(replay_mp4::MOOV, movie, rest, kind_number("moov"@));
    assert forall|number: int| #[trigger] samples(rest, number) is Some implies samples(
        replay_mp4::file_type() + replay_mp4::boxed(replay_mp4::MOOV, movie) + rest,
        number,
    ) == samples(rest, number) by {
        lemma_box_skipped(replay_mp4::MOOV, movie, rest, number);
        lemma_box_skipped(replay_mp4::FTYP, brands, behind, number);
    }
}

/// A player finds the first track behind the movie header.
#[verifier::spinoff_prover]
proof fn lemma_first_track(next: u32, stream: ReplayVideoStream, rest: Seq<u8>)
    requires
        replay_mp4::video_track(stream).len() + 8 <= u32::MAX,
    ensures
        ({
            let boxes = replay_mp4::boxed(replay_mp4::MVHD, replay_mp4::movie_header(next))
                + replay_mp4::boxed(replay_mp4::TRAK, replay_mp4::video_track(stream)) + rest;
            &&& track(boxes, 1) == Some(replay_mp4::video_track(stream))
            &&& track(boxes, 2) == track(rest, 2)
        }),
{
    lemma_kinds();
    let front = replay_mp4::movie_header(next);
    let contents = replay_mp4::video_track(stream);
    let header = child(contents, kind_number("tkhd"@))->0;
    assert(child(contents, kind_number("tkhd"@)) == Some(header) && word_at(header, 12) == 1) by {
        lemma_video_track(stream);
    }
    let behind = replay_mp4::boxed(replay_mp4::TRAK, contents) + rest;
    assert(front.len() == 100) by {
        reveal(replay_mp4::movie_header);
    }
    assert(replay_mp4::boxed(replay_mp4::MVHD, front) + replay_mp4::boxed(
        replay_mp4::TRAK,
        contents,
    ) + rest =~= replay_mp4::boxed(replay_mp4::MVHD, front) + behind);
    lemma_not_a_track(replay_mp4::MVHD, front, behind, 1);
    lemma_not_a_track(replay_mp4::MVHD, front, behind, 2);
    lemma_track(contents, rest, header, 1);
    lemma_track(contents, rest, header, 2);
}

/// A player of a container with video only shows every packet of the history
/// once, in order, with its bytes. Each is shown as long as until the next one
/// of its fragment, the last of a fragment as long as the packet says, and each
/// fragment starts as long after the first packet as its own first packet does,
/// all within one tick of those that the track's media header counts to a
/// second.
#[verifier::spinoff_prover]
#[verifier::rlimit(80)]
pub proof fn video_is_shown_in_time(stream: ReplayVideoStream, packets: Seq<PacketView>)
    requires
        replay_mp4::video_container(stream, packets) is Ok,
        replay_ring::strictly_ordered(packets),
    ensures
        ({
            let file = replay_mp4::video_container(stream, packets)->Ok_0.0;
            &&& ticks_per_second(file, 1) == Some(1_000_000int)
            &&& samples(file, 1) is Some
            &&& shows(samples(file, 1)->0, packets, 0, ticks_per_second(file, 1)->0)
        }),
{
    reveal(replay_mp4::video_movie);
    let movie = replay_mp4::boxed(replay_mp4::MVHD, replay_mp4::movie_header(2))
        + replay_mp4::boxed(replay_mp4::TRAK, replay_mp4::video_track(stream)) + replay_mp4::boxed(
        replay_mp4::MVEX,
        replay_mp4::boxed(
            replay_mp4::TREX,
            replay_mp4::track_defaults(replay_mp4::TRACK_ID),
        ),
    );
    let written = replay_mp4::video_fragments(packets, packets[0].timestamp_ns, 0, 0)->Ok_0.0;
    let none = Seq::<u8>::empty();
    assert(samples(none, 1) == Some(Seq::<Sample>::empty()));
    lemma_video_shown(packets, 0, 0, none);
    assert(written + none =~= written);
    lemma_movie(movie, written);
    lemma_first_track(
        2,
        stream,
        replay_mp4::boxed(
            replay_mp4::MVEX,
            replay_mp4::boxed(
                replay_mp4::TREX,
                replay_mp4::track_defaults(replay_mp4::TRACK_ID),
            ),
        ),
    );
    lemma_video_track(stream);
    assert(samples(written, 1) is Some);
}

/// A player of another track passes over a video fragment.
#[verifier::spinoff_prover]
#[verifier::rlimit(60)]
proof fn lemma_video_fragment_passed(
    sequence: u32,
    origin_ns: u64,
    part: Seq<PacketView>,
    rest: Seq<u8>,
)
    requires
        part.len() > 0,
        replay_mp4::video_fragment(sequence, origin_ns, part) is Ok,
        samples(rest, 2) is Some,
    ensures
        samples(replay_mp4::video_fragment(sequence, origin_ns, part)->Ok_0 + rest, 2) == samples(
            rest,
            2,
        ),
{
    reveal(replay_mp4::video_fragment_header);
    reveal(replay_mp4::video_header);
    let all = replay_mp4::video_fragment(sequence, origin_ns, part)->Ok_0 + rest;
    let base_time = replay_mp4::in_timescale(part[0].timestamp_ns - origin_ns)->0 as u64;
    let entries = replay_mp4::sample_entries(part, part.len() as int)->Ok_0;
    let provisional = replay_mp4::video_header(sequence, base_time, part, 0)->Ok_0;
    let offset = (provisional.len() + 8) as u32;
    let count = part.len() as u32;
    lemma_header_room(sequence, base_time, count, 0, entries);
    lemma_header_parts(
        sequence,
        replay_mp4::TRACK_ID,
        base_time,
        0x0701,
        count,
        offset,
        entries,
        all,
        2,
    );
    let header = replay_mp4::fragment_box(
        sequence,
        replay_mp4::TRACK_ID,
        base_time,
        0x0701,
        count,
        offset,
        entries,
    );
    lemma_fragment_read(header.skip(8), replay_mp4::payload(part), rest, 2);
    assert(Seq::<Sample>::empty() + samples(rest, 2)->0 =~= samples(rest, 2)->0);
}

proof fn lemma_video_passed(
    packets: Seq<PacketView>,
    origin_ns: u64,
    start: int,
    sequence: u32,
    rest: Seq<u8>,
)
    requires
        0 <= start <= packets.len(),
        replay_mp4::video_fragments(packets, origin_ns, start, sequence) is Ok,
        samples(rest, 2) is Some,
    ensures
        samples(
            replay_mp4::video_fragments(packets, origin_ns, start, sequence)->Ok_0.0 + rest,
            2,
        ) == samples(rest, 2),
    decreases packets.len() - start,
{
    let written = replay_mp4::video_fragments(packets, origin_ns, start, sequence)->Ok_0.0;
    if start == packets.len() {
        assert(written + rest =~= rest);
    } else {
        lemma_boundary(packets, start, start + 1);
        let end = replay_mp4::next_boundary(packets, start, start + 1);
        let number = replay_mp4::next_sequence(sequence);
        let part = packets.subrange(start, end);
        let fragment = replay_mp4::video_fragment(number, origin_ns, part)->Ok_0;
        let later = replay_mp4::video_fragments(packets, origin_ns, end, number)->Ok_0.0;
        lemma_video_passed(packets, origin_ns, end, number, rest);
        lemma_video_fragment_passed(number, origin_ns, part, later + rest);
        assert(written + rest =~= fragment + (later + rest));
    }
}

/// Whether samples play Opus packets from `start` on: each packet's bytes for a
/// fiftieth of a second, and every thirty seconds of them as long after the
/// origin as their own first packet.
pub open spec fn plays(
    played: Seq<Sample>,
    packets: Seq<OpusPacketView>,
    origin_ns: int,
    start: int,
    per_second: int,
) -> bool {
    &&& played.len() == packets.len() - start
    &&& forall|i: int|
        0 <= i < played.len() ==> {
            &&& (#[trigger] played[i]).bytes == packets[start + i].bytes
            &&& played[i].ticks * 50 == per_second
            &&& played[i].leads == ((start + i) % 1_500 == 0)
            &&& played[i].leads ==> lasts(
                played[i].base,
                packets[start + i].timestamp_ns - origin_ns,
                per_second,
            )
        }
}

/// Whether a run's entries state Opus packets.
spec fn opus_state(entries: Seq<u8>, packets: Seq<OpusPacketView>, count: int) -> bool {
    &&& entries.len() == 8 * count
    &&& forall|i: int|
        0 <= i < count ==> {
            &&& #[trigger] word_at(entries, 8 * i) == 960
            &&& word_at(entries, 8 * i + 4) == packets[i].bytes.len()
        }
}

#[verifier::spinoff_prover]
proof fn lemma_opus_entries(packets: Seq<OpusPacketView>, count: int)
    requires
        0 <= count <= packets.len(),
        replay_mp4::all_opus_fit(packets),
    ensures
        opus_state(replay_mp4::opus_entries(packets, count), packets, count),
    decreases count,
{
    let entries = replay_mp4::opus_entries(packets, count);
    if count > 0 {
        lemma_opus_entries(packets, count - 1);
        let before = replay_mp4::opus_entries(packets, count - 1);
        assert(replay_mp4::opus_packet_fits(packets[count - 1]));
        let size = packets[count - 1].bytes.len() as u32;
        let none = Seq::<u8>::empty();
        lemma_word_behind(before, 960, wire::be32(size));
        lemma_word_behind(before + wire::be32(960), size, none);
        assert(entries =~= before + wire::be32(960) + wire::be32(size));
        assert(entries =~= before + wire::be32(960) + wire::be32(size) + none);
        assert forall|i: int| 0 <= i < count implies {
            &&& #[trigger] word_at(entries, 8 * i) == 960
            &&& word_at(entries, 8 * i + 4) == packets[i].bytes.len()
        } by {
            if i < count - 1 {
                let entry = wire::be32(960) + wire::be32(size);
                assert(entries =~= before + entry);
                assert(word_at(before, 8 * i) == 960);
                lemma_word_in(before, entry, 8 * i);
                lemma_word_in(before, entry, 8 * i + 4);
            }
        }
    }
}

/// The payload of an Opus packet stands behind those before it.
proof fn lemma_opus_place(packets: Seq<OpusPacketView>, index: int)
    requires
        0 <= index < packets.len(),
    ensures
        ({
            let start = replay_mp4::opus_payload(packets.take(index)).len() as int;
            let all = replay_mp4::opus_payload(packets);
            &&& start + packets[index].bytes.len() <= all.len()
            &&& all.subrange(start, start + packets[index].bytes.len()) == packets[index].bytes
        }),
    decreases packets.len(),
{
    let all = replay_mp4::opus_payload(packets);
    let shorter = packets.drop_last();
    let start = replay_mp4::opus_payload(packets.take(index)).len() as int;
    if index == packets.len() - 1 {
        assert(packets.take(index) =~= shorter);
        assert(all.subrange(start, start + packets[index].bytes.len()) =~= packets[index].bytes);
    } else {
        lemma_opus_place(shorter, index);
        assert(shorter.take(index) =~= packets.take(index));
        let before = replay_mp4::opus_payload(shorter);
        assert(all.subrange(start, start + packets[index].bytes.len()) =~= before.subrange(
            start,
            start + packets[index].bytes.len(),
        ));
    }
}

proof fn lemma_opus_length(packets: Seq<OpusPacketView>)
    requires
        replay_mp4::all_opus_fit(packets),
    ensures
        replay_mp4::opus_payload(packets).len() <= 4_096 * packets.len(),
    decreases packets.len(),
{
    if packets.len() > 0 {
        assert(replay_mp4::opus_packet_fits(packets[packets.len() - 1]));
        let shorter = packets.drop_last();
        assert forall|i: int| 0 <= i < shorter.len() implies replay_mp4::opus_packet_fits(
            #[trigger] shorter[i],
        ) by {
            assert(replay_mp4::opus_packet_fits(packets[i]));
        }
        lemma_opus_length(shorter);
    }
}

proof fn lemma_opus_run_bytes(run: Seq<u8>, part: Seq<OpusPacketView>, count: int)
    requires
        0 <= count <= part.len(),
        word_at(run, 0) == 0x0301,
        forall|i: int|
            0 <= i < part.len() ==> #[trigger] word_at(run, 12 + 8 * i + 4) == part[i].bytes.len(),
    ensures
        run_bytes(run, count) == replay_mp4::opus_payload(part.take(count)).len(),
    decreases count,
{
    if count > 0 {
        lemma_opus_run_bytes(run, part, count - 1);
        assert(part.take(count).drop_last() =~= part.take(count - 1));
        assert(word_at(run, 12 + 8 * (count - 1) + 4) == part[count - 1].bytes.len());
    } else {
        assert(part.take(0) =~= Seq::<OpusPacketView>::empty());
    }
}

proof fn lemma_opus_bytes(
    all: Seq<u8>,
    offset: int,
    run: Seq<u8>,
    part: Seq<OpusPacketView>,
    i: int,
)
    requires
        0 <= i < part.len(),
        0 <= offset,
        offset + replay_mp4::opus_payload(part).len() <= all.len(),
        all.subrange(offset, offset + replay_mp4::opus_payload(part).len())
            == replay_mp4::opus_payload(part),
        word_at(run, 0) == 0x0301,
        forall|k: int|
            0 <= k < part.len() ==> #[trigger] word_at(run, 12 + 8 * k + 4) == part[k].bytes.len(),
    ensures
        ({
            let start = offset + run_bytes(run, i);
            all.subrange(start, start + part[i].bytes.len()) == part[i].bytes
        }),
{
    let media = replay_mp4::opus_payload(part);
    lemma_opus_run_bytes(run, part, i);
    lemma_opus_place(part, i);
    let start = replay_mp4::opus_payload(part.take(i)).len() as int;
    let length = part[i].bytes.len() as int;
    let from = offset + start;
    assert(all.subrange(from, from + length) =~= media.subrange(start, start + length));
}

#[verifier::spinoff_prover]
#[verifier::rlimit(60)]
proof fn lemma_audio_fragment_played(
    sequence: u32,
    origin_ns: u64,
    part: Seq<OpusPacketView>,
    rest: Seq<u8>,
)
    requires
        0 < part.len() <= 1_500,
        replay_mp4::all_opus_fit(part),
        replay_mp4::audio_fragment(sequence, origin_ns, part) is Ok,
        samples(rest, 1) is Some,
        samples(rest, 2) is Some,
    ensures
        ({
            let all = replay_mp4::audio_fragment(sequence, origin_ns, part)->Ok_0 + rest;
            &&& samples(all, 1) == samples(rest, 1)
            &&& samples(all, 2) matches Some(found) && exists|played: Seq<Sample>|
                found == played + samples(rest, 2)->0 && #[trigger] plays(
                    played,
                    part,
                    origin_ns as int,
                    0,
                    48_000,
                )
        }),
{
    reveal(replay_mp4::audio_fragment);
    reveal(replay_mp4::audio_header);
    let all = replay_mp4::audio_fragment(sequence, origin_ns, part)->Ok_0 + rest;
    let media = replay_mp4::opus_payload(part);
    let entries = replay_mp4::opus_entries(part, part.len() as int);
    let ticks = (part[0].timestamp_ns - origin_ns) * replay_mp4::AUDIO_TIMESCALE;
    let base_time = (ticks / replay_mp4::NANOSECONDS as int) as u64;
    let length = replay_mp4::audio_header(sequence, base_time, part, 0).len();
    let offset = (length + 8) as u32;
    let count = part.len() as u32;
    lemma_opus_entries(part, part.len() as int);
    lemma_opus_length(part);
    let track = replay_mp4::AUDIO_TRACK_ID;
    lemma_header_parts(sequence, track, base_time, 0x0301, count, 0, entries, all, 1);
    lemma_header_parts(sequence, track, base_time, 0x0301, count, offset, entries, all, 1);
    lemma_header_parts(sequence, track, base_time, 0x0301, count, offset, entries, all, 2);
    let header = replay_mp4::fragment_box(
        sequence,
        track,
        base_time,
        0x0301,
        count,
        offset,
        entries,
    );
    lemma_fragment_read(header.skip(8), media, rest, 1);
    lemma_fragment_read(header.skip(8), media, rest, 2);
    assert(Seq::<Sample>::empty() + samples(rest, 1)->0 =~= samples(rest, 1)->0);
    let run = run_of(0x0301, count, offset, entries);
    lemma_run_words(0x0301, offset, count, entries);
    let played = Seq::new(count as nat, |i: int| run_sample(all, base_time as int, run, i));
    assert(samples(all, 2) == Some(played + samples(rest, 2)->0));
    assert(all.subrange(offset as int, offset + media.len()) =~= media);
    assert forall|i: int| 0 <= i < part.len() implies #[trigger] word_at(run, 12 + 8 * i + 4)
        == part[i].bytes.len() by {
        assert(word_at(entries, 8 * i) == word_at(run, 12 + 8 * i));
        assert(word_at(entries, 8 * i + 4) == word_at(run, 12 + (8 * i + 4)));
    }
    assert forall|i: int| 0 <= i < played.len() implies {
        &&& (#[trigger] played[i]).bytes == part[0 + i].bytes
        &&& played[i].ticks * 50 == 48_000
        &&& played[i].leads == ((0 + i) % 1_500 == 0)
        &&& played[i].leads ==> lasts(played[i].base, part[0 + i].timestamp_ns - origin_ns, 48_000)
    } by {
        assert(word_at(entries, 8 * i) == word_at(run, 12 + 8 * i));
        assert(word_at(entries, 8 * i + 4) == word_at(run, 12 + (8 * i + 4)));
        lemma_opus_bytes(all, offset as int, run, part, i);
    }
    assert(plays(played, part, origin_ns as int, 0, 48_000));
}

#[verifier::spinoff_prover]
#[verifier::rlimit(60)]
proof fn lemma_audio_played(
    packets: Seq<OpusPacketView>,
    origin_ns: u64,
    start: int,
    sequence: u32,
)
    requires
        0 <= start <= packets.len(),
        start < packets.len() ==> start % 1_500 == 0,
        replay_mp4::all_opus_fit(packets),
        replay_mp4::audio_fragments(packets, origin_ns, start, sequence) is Ok,
    ensures
        ({
            let written = replay_mp4::audio_fragments(packets, origin_ns, start, sequence)->Ok_0.0;
            &&& samples(written, 1) == Some(Seq::<Sample>::empty())
            &&& samples(written, 2) matches Some(played) && plays(
                played,
                packets,
                origin_ns as int,
                start,
                48_000,
            )
        }),
    decreases packets.len() - start,
{
    let written = replay_mp4::audio_fragments(packets, origin_ns, start, sequence)->Ok_0.0;
    if start == packets.len() {
        assert(written =~= Seq::<u8>::empty());
        assert(samples(written, 1) == Some(Seq::<Sample>::empty()));
        assert(samples(written, 2) == Some(Seq::<Sample>::empty()));
    } else {
        let end = if start + 1_500 < packets.len() {
            start + 1_500
        } else {
            packets.len() as int
        };
        let number = replay_mp4::next_sequence(sequence);
        let part = packets.subrange(start, end);
        let later = replay_mp4::audio_fragments(packets, origin_ns, end, number)->Ok_0.0;
        assert forall|i: int| 0 <= i < part.len() implies replay_mp4::opus_packet_fits(
            #[trigger] part[i],
        ) by {
            assert(replay_mp4::opus_packet_fits(packets[start + i]));
        }
        lemma_audio_played(packets, origin_ns, end, number);
        lemma_audio_fragment_played(number, origin_ns, part, later);
        let fragment = replay_mp4::audio_fragment(number, origin_ns, part)->Ok_0;
        assert(written == fragment + later);
        let behind = samples(later, 2)->0;
        let found = samples(written, 2)->0;
        let first = choose|first: Seq<Sample>|
            found == first + behind && #[trigger] plays(first, part, origin_ns as int, 0, 48_000);
        let length = end - start;
        assert forall|i: int| 0 <= i < found.len() implies {
            &&& (#[trigger] found[i]).bytes == packets[start + i].bytes
            &&& found[i].ticks * 50 == 48_000
            &&& found[i].leads == ((start + i) % 1_500 == 0)
            &&& found[i].leads ==> lasts(
                found[i].base,
                packets[start + i].timestamp_ns - origin_ns,
                48_000,
            )
        } by {
            if i < length {
                assert(found[i] == first[i]);
                assert(part[0 + i] == packets[start + i]);
            } else {
                assert(found[i] == behind[i - length]);
                assert(end + (i - length) == start + i);
            }
        }
    }
}

/// What a player reads of an audio track.
#[verifier::spinoff_prover]
proof fn lemma_audio_track(audio: ReplayAudioSnapshot)
    requires
        replay_mp4::audio_track(audio).len() + 8 <= u32::MAX,
    ensures
        ({
            let contents = replay_mp4::audio_track(audio);
            &&& child(contents, kind_number("tkhd"@)) matches Some(header) && word_at(header, 12)
                == 2
            &&& child(contents, kind_number("mdia"@)) == Some(replay_mp4::audio_media(audio))
            &&& child(replay_mp4::audio_media(audio), kind_number("mdhd"@)) matches Some(header)
                && word_at(header, 12) == audio.stream.sample_rate
            &&& child(replay_mp4::audio_media(audio), kind_number("hdlr"@)) matches Some(handler)
                && word_at(handler, 8) == kind_number("soun"@)
            &&& child(replay_mp4::audio_media(audio), kind_number("minf"@)) == Some(
                replay_mp4::audio_information(audio),
            )
        }),
{
    reveal(replay_mp4::audio_track);
    reveal(replay_mp4::audio_media);
    let header = replay_mp4::audio_track_header();
    let front = replay_mp4::full(0, 7) + wire::zeros(8);
    let back = wire::zeros(16) + wire::be16(0x0100) + wire::zeros(2) + replay_mp4::unity_matrix()
        + wire::zeros(8);
    assert(header =~= front + wire::be32(2) + back);
    lemma_word_behind(front, 2, back);
    reveal_strlit("soun");
    lemma_handler(replay_mp4::SOUN, replay_mp4::AUDIO_HANDLER.spec_bytes());
    lemma_track_parts(header, replay_mp4::audio_media(audio));
    lemma_media_header(audio.stream.sample_rate);
    lemma_media_parts(
        replay_mp4::media_header(audio.stream.sample_rate),
        replay_mp4::handler(replay_mp4::SOUN, replay_mp4::AUDIO_HANDLER.spec_bytes()),
        replay_mp4::audio_information(audio),
    );
}

/// The packets that are heard are those that start while the video lasts.
proof fn lemma_heard(packets: Seq<OpusPacketView>, count: int, from: int, until: int)
    requires
        0 <= count <= packets.len(),
    ensures
        replay_mp4::audible(packets, count, from, until) == packets.take(count).filter(
            |packet: OpusPacketView| from <= packet.timestamp_ns < until,
        ),
    decreases count,
{
    reveal(Seq::filter);
    let part = packets.take(count);
    let inside = |packet: OpusPacketView| from <= packet.timestamp_ns < until;
    if count > 0 {
        lemma_heard(packets, count - 1, from, until);
        assert(part.drop_last() =~= packets.take(count - 1));
        assert(part.last() == packets[count - 1]);
    }
    assert(replay_mp4::audible(packets, count, from, until) == part.filter(inside));
}

/// A player of a container with audio shows the video in time, as that of a
/// container without, and plays those Opus packets of the recording that start
/// while the video lasts, in order. Every one of them sounds for a fiftieth of a
/// second, and every thirty seconds of sound start as long after the first
/// video packet as their own first packet does, within one of the track's ticks.
#[verifier::spinoff_prover]
#[verifier::rlimit(80)]
pub proof fn audio_and_video_run_together(
    stream: ReplayVideoStream,
    packets: Seq<PacketView>,
    audio: ReplayAudioSnapshot,
)
    requires
        replay_mp4::audio_video_container(stream, packets, audio) is Ok,
        replay_ring::strictly_ordered(packets),
        audio.stream.sample_rate == 48_000,
    ensures
        ({
            let file = replay_mp4::audio_video_container(stream, packets, audio)->Ok_0.0;
            let heard = replay_media::opus_views(audio.packets@).filter(
                |packet: OpusPacketView|
                    packets[0].timestamp_ns <= packet.timestamp_ns < packets.last().timestamp_ns
                        + packets.last().duration_ns,
            );
            &&& ticks_per_second(file, 1) == Some(1_000_000int)
            &&& samples(file, 1) is Some
            &&& shows(samples(file, 1)->0, packets, 0, ticks_per_second(file, 1)->0)
            &&& ticks_per_second(file, 2) == Some(48_000int)
            &&& samples(file, 2) is Some
            &&& plays(
                samples(file, 2)->0,
                heard,
                packets[0].timestamp_ns as int,
                0,
                ticks_per_second(file, 2)->0,
            )
        }),
{
    reveal(replay_mp4::audio_video_movie);
    let origin = packets[0].timestamp_ns;
    let views = replay_media::opus_views(audio.packets@);
    let until = packets.last().timestamp_ns + packets.last().duration_ns;
    lemma_heard(views, views.len() as int, origin as int, until);
    assert(views.take(views.len() as int) =~= views);
    let heard = replay_mp4::history_audio(packets, views);
    let inside = |packet: OpusPacketView|
        packets[0].timestamp_ns <= packet.timestamp_ns < packets.last().timestamp_ns
            + packets.last().duration_ns;
    assert(inside =~= (|packet: OpusPacketView| origin as int <= packet.timestamp_ns < until));
    assert(heard == views.filter(inside));
    let (video, number) = replay_mp4::video_fragments(packets, origin, 0, 0)->Ok_0;
    let (sound, last) = replay_mp4::audio_fragments(heard, origin, 0, number)->Ok_0;
    lemma_audio_played(heard, origin, 0, number);
    lemma_video_shown(packets, 0, 0, sound);
    lemma_video_passed(packets, origin, 0, 0, sound);
    let defaults = replay_mp4::boxed(
        replay_mp4::MVEX,
        replay_mp4::boxed(
            replay_mp4::TREX,
            replay_mp4::track_defaults(replay_mp4::TRACK_ID),
        ) + replay_mp4::boxed(
            replay_mp4::TREX,
            replay_mp4::track_defaults(replay_mp4::AUDIO_TRACK_ID),
        ),
    );
    let audio_box = replay_mp4::boxed(replay_mp4::TRAK, replay_mp4::audio_track(audio));
    let front = replay_mp4::boxed(replay_mp4::MVHD, replay_mp4::movie_header(3))
        + replay_mp4::boxed(replay_mp4::TRAK, replay_mp4::video_track(stream));
    let movie = front + audio_box + defaults;
    assert(movie =~= front + (audio_box + defaults));
    lemma_movie(movie, video + sound);
    assert(replay_mp4::file_type() + replay_mp4::boxed(replay_mp4::MOOV, movie) + (video + sound)
        =~= replay_mp4::file_type() + replay_mp4::boxed(replay_mp4::MOOV, movie) + video + sound);
    lemma_first_track(3, stream, audio_box + defaults);
    lemma_video_track(stream);
    lemma_audio_track(audio);
    let header = child(replay_mp4::audio_track(audio), kind_number("tkhd"@))->0;
    lemma_track(replay_mp4::audio_track(audio), defaults, header, 2);
    assert(samples(video + sound, 1) is Some);
    assert(samples(video + sound, 2) is Some);
}

proof fn lemma_short_behind(front: Seq<u8>, value: u16, back: Seq<u8>)
    ensures
        short_at(front + wire::be16(value) + back, front.len() as int) == value,
{
    let all = front + wire::be16(value) + back;
    let at = front.len() as int;
    let bytes = wire::be16(value);
    assert(all[at] == bytes[0] && all[at + 1] == bytes[1]);
    assert(value as int == value / 0x100 * 0x100 + value % 0x100);
}

/// Where a player finds the description of a track's samples.
#[verifier::spinoff_prover]
proof fn lemma_description(first: u32, header: Seq<u8>, kind: u32, entry: Seq<u8>)
    requires
        header.len() + entry.len() + 300 <= u32::MAX,
        first != replay_mp4::STBL,
    ensures
        ({
            let information = replay_mp4::boxed(first, header) + replay_mp4::boxed(
                replay_mp4::DINF,
                replay_mp4::data_information(),
            ) + replay_mp4::boxed(replay_mp4::STBL, replay_mp4::sample_table(kind, entry));
            &&& child(information, kind_number("stbl"@)) == Some(
                replay_mp4::sample_table(kind, entry),
            )
            &&& child(replay_mp4::sample_table(kind, entry), kind_number("stsd"@)) matches Some(
                descriptions,
            ) && child(descriptions.skip(8), kind as int) == Some(entry)
        }),
{
    reveal_strlit("stbl");
    reveal_strlit("stsd");
    let none = Seq::<u8>::empty();
    let table = replay_mp4::sample_table(kind, entry);
    let references = replay_mp4::data_information();
    let second = replay_mp4::boxed(replay_mp4::DINF, references);
    let last = replay_mp4::boxed(replay_mp4::STBL, table);
    assert(references.len() == 28);
    assert(replay_mp4::boxed(first, header) + second + last =~= replay_mp4::boxed(first, header) + (
    second + last));
    lemma_child(first, header, second + last, kind_number("stbl"@));
    lemma_child(replay_mp4::DINF, references, last, kind_number("stbl"@));
    assert(last =~= last + none);
    assert(table.len() == entry.len() + 16 + 8 + 16 + 16 + 20 + 16);
    lemma_child(replay_mp4::STBL, table, none, kind_number("stbl"@));
    let descriptions = replay_mp4::full(0, 0) + wire::be32(1) + replay_mp4::boxed(kind, entry);
    let behind = replay_mp4::boxed(replay_mp4::STTS, replay_mp4::full(0, 0) + wire::zeros(4))
        + replay_mp4::boxed(replay_mp4::STSC, replay_mp4::full(0, 0) + wire::zeros(4))
        + replay_mp4::boxed(replay_mp4::STSZ, replay_mp4::full(0, 0) + wire::zeros(8))
        + replay_mp4::boxed(replay_mp4::STCO, replay_mp4::full(0, 0) + wire::zeros(4));
    assert(table =~= replay_mp4::boxed(replay_mp4::STSD, descriptions) + behind);
    lemma_child(replay_mp4::STSD, descriptions, behind, kind_number("stsd"@));
    assert(descriptions.skip(8) =~= replay_mp4::boxed(kind, entry) + none);
    lemma_child(kind, entry, none, kind as int);
}

/// What a player reads of an H.264 description.
#[verifier::spinoff_prover]
proof fn lemma_avc_entry(stream: ReplayVideoStream)
    requires
        replay_mp4::dimensions_fit(stream),
        stream.codec_private@.len() + 8 <= u32::MAX,
    ensures
        ({
            let entry = replay_mp4::avc_entry(stream);
            &&& short_at(entry, 24) == stream.width
            &&& short_at(entry, 26) == stream.height
            &&& child(entry.skip(78), kind_number("avcC"@)) == Some(stream.codec_private@)
            &&& entry.len() == 86 + stream.codec_private@.len()
        }),
{
    reveal_strlit("avcC");
    let entry = replay_mp4::avc_entry(stream);
    let none = Seq::<u8>::empty();
    let width = stream.width as u16;
    let height = stream.height as u16;
    let front = wire::zeros(6) + wire::be16(1) + wire::zeros(16);
    let last = replay_mp4::boxed(replay_mp4::AVCC, stream.codec_private@);
    let back = wire::be32(0x0048_0000) + wire::be32(0x0048_0000) + wire::zeros(4) + wire::be16(1)
        + wire::zeros(32) + wire::be16(0x0018) + wire::be16(0xffff) + last;
    assert(entry =~= front + wire::be16(width) + (wire::be16(height) + back));
    lemma_short_behind(front, width, wire::be16(height) + back);
    assert(entry =~= (front + wire::be16(width)) + wire::be16(height) + back);
    lemma_short_behind(front + wire::be16(width), height, back);
    assert(entry.skip(78) =~= last + none);
    lemma_child(replay_mp4::AVCC, stream.codec_private@, none, kind_number("avcC"@));
}

/// A video track has room for the codec's configuration.
#[verifier::spinoff_prover]
proof fn lemma_track_room(stream: ReplayVideoStream)
    ensures
        replay_mp4::video_track(stream).len() >= stream.codec_private@.len() + 400,
{
    reveal(replay_mp4::video_track);
    assert(replay_mp4::media_header(replay_mp4::TIMESCALE).len() == 24);
    assert(replay_mp4::video_track_header(stream).len() == 84);
    let entry = replay_mp4::avc_entry(stream);
    assert(entry.len() == 86 + stream.codec_private@.len());
    let table = replay_mp4::sample_table(replay_mp4::AVC1, entry);
    assert(table.len() == entry.len() + 92);
    assert(replay_mp4::data_information().len() == 28);
    let information = replay_mp4::video_information(stream);
    assert(information.len() == 20 + 36 + 8 + table.len());
    assert(replay_mp4::video_media(stream).len() >= 32 + 28 + 8 + information.len());
}

/// A player is told that a track is video, the picture's width and height and
/// the codec's own configuration as the stream has them.
#[verifier::spinoff_prover]
pub proof fn the_picture_is_described(stream: ReplayVideoStream, packets: Seq<PacketView>)
    requires
        replay_mp4::video_container(stream, packets) is Ok,
    ensures
        track_kind(replay_mp4::video_container(stream, packets)->Ok_0.0, 1) == Some(
            kind_number("vide"@),
        ),
        sample_description(
            replay_mp4::video_container(stream, packets)->Ok_0.0,
            1,
            "avc1"@,
        ) matches Some(entry) && short_at(entry, 24) == stream.width && short_at(entry, 26)
            == stream.height && child(entry.skip(78), kind_number("avcC"@)) == Some(
            stream.codec_private@,
        ),
{
    reveal(replay_mp4::video_movie);
    reveal_strlit("avc1");
    let defaults = replay_mp4::boxed(
        replay_mp4::MVEX,
        replay_mp4::boxed(
            replay_mp4::TREX,
            replay_mp4::track_defaults(replay_mp4::TRACK_ID),
        ),
    );
    let movie = replay_mp4::boxed(replay_mp4::MVHD, replay_mp4::movie_header(2))
        + replay_mp4::boxed(replay_mp4::TRAK, replay_mp4::video_track(stream)) + defaults;
    let written = replay_mp4::video_fragments(packets, packets[0].timestamp_ns, 0, 0)->Ok_0.0;
    let file = replay_mp4::video_container(stream, packets)->Ok_0.0;
    lemma_track_room(stream);
    assert(child(file, kind_number("moov"@)) == Some(movie)) by {
        lemma_movie(movie, written);
    }
    assert(track(movie, 1) == Some(replay_mp4::video_track(stream))) by {
        lemma_first_track(2, stream, defaults);
    }
    let media = replay_mp4::video_media(stream);
    lemma_video_track(stream);
    assert(track_media(file, 1) == Some(media));
    let entry = replay_mp4::avc_entry(stream);
    lemma_avc_entry(stream);
    lemma_description(
        replay_mp4::VMHD,
        replay_mp4::full(0, 1) + wire::zeros(8),
        replay_mp4::AVC1,
        entry,
    );
    assert(kind_number("avc1"@) == replay_mp4::AVC1);
    assert(sample_description(file, 1, "avc1"@) == Some(entry));
}

/// What a player reads of an Opus description.
#[verifier::spinoff_prover]
proof fn lemma_opus_entry(audio: ReplayAudioSnapshot)
    ensures
        ({
            let entry = replay_mp4::opus_entry(audio);
            &&& entry.len() == 47
            &&& short_at(entry, 16) == audio.stream.channels
            &&& child(entry.skip(28), kind_number("dOps"@)) matches Some(details) && details[1]
                == audio.stream.channels && short_at(details, 2) == 312 && word_at(details, 4)
                == audio.stream.sample_rate
        }),
{
    reveal_strlit("dOps");
    let entry = replay_mp4::opus_entry(audio);
    let none = Seq::<u8>::empty();
    let channels = audio.stream.channels as u16;
    let front = wire::zeros(6) + wire::be16(1) + wire::zeros(8);
    let head = seq![0u8, audio.stream.channels];
    let details = head + wire::be16(312) + wire::be32(audio.stream.sample_rate) + wire::zeros(3);
    let last = replay_mp4::boxed(replay_mp4::DOPS, details);
    let back = wire::be16(16) + wire::zeros(4) + wire::be32(
        replay_mp4::fixed_point(audio.stream.sample_rate),
    ) + last;
    assert(entry =~= front + wire::be16(channels) + back);
    lemma_short_behind(front, channels, back);
    assert(entry.skip(28) =~= last + none);
    lemma_child(replay_mp4::DOPS, details, none, kind_number("dOps"@));
    let behind = wire::be32(audio.stream.sample_rate) + wire::zeros(3);
    assert(details =~= head + wire::be16(312) + behind);
    lemma_short_behind(head, 312, behind);
    let before = head + wire::be16(312);
    assert(details =~= before + wire::be32(audio.stream.sample_rate) + wire::zeros(3));
    lemma_word_behind(before, audio.stream.sample_rate, wire::zeros(3));
}

/// A player is told that the second track is sound in Opus, with its channels
/// and its rate, and how many samples to pass over at the start.
#[verifier::spinoff_prover]
#[verifier::rlimit(60)]
pub proof fn the_sound_is_described(
    stream: ReplayVideoStream,
    packets: Seq<PacketView>,
    audio: ReplayAudioSnapshot,
)
    requires
        replay_mp4::audio_video_container(stream, packets, audio) is Ok,
    ensures
        ({
            let file = replay_mp4::audio_video_container(stream, packets, audio)->Ok_0.0;
            &&& track_kind(file, 1) == Some(kind_number("vide"@))
            &&& track_kind(file, 2) == Some(kind_number("soun"@))
            &&& sample_description(file, 2, "Opus"@) matches Some(entry) && short_at(entry, 16)
                == audio.stream.channels && (child(
                entry.skip(28),
                kind_number("dOps"@),
            ) matches Some(details) && details[1] == audio.stream.channels && short_at(details, 2)
                == 312 && word_at(details, 4) == audio.stream.sample_rate)
        }),
{
    reveal(replay_mp4::audio_video_movie);
    reveal(replay_mp4::audio_information);
    reveal_strlit("Opus");
    let heard = replay_mp4::history_audio(packets, replay_media::opus_views(audio.packets@));
    let origin = packets[0].timestamp_ns;
    let (video, number) = replay_mp4::video_fragments(packets, origin, 0, 0)->Ok_0;
    let (sound, last) = replay_mp4::audio_fragments(heard, origin, 0, number)->Ok_0;
    let defaults = replay_mp4::boxed(
        replay_mp4::MVEX,
        replay_mp4::boxed(
            replay_mp4::TREX,
            replay_mp4::track_defaults(replay_mp4::TRACK_ID),
        ) + replay_mp4::boxed(
            replay_mp4::TREX,
            replay_mp4::track_defaults(replay_mp4::AUDIO_TRACK_ID),
        ),
    );
    let audio_box = replay_mp4::boxed(replay_mp4::TRAK, replay_mp4::audio_track(audio));
    let front = replay_mp4::boxed(replay_mp4::MVHD, replay_mp4::movie_header(3))
        + replay_mp4::boxed(replay_mp4::TRAK, replay_mp4::video_track(stream));
    let movie = front + audio_box + defaults;
    assert(movie =~= front + (audio_box + defaults));
    let file = replay_mp4::audio_video_container(stream, packets, audio)->Ok_0.0;
    assert(child(file, kind_number("moov"@)) == Some(movie)) by {
        lemma_movie(movie, video + sound);
        assert(replay_mp4::file_type() + replay_mp4::boxed(replay_mp4::MOOV, movie) + (video
            + sound) =~= file);
    }
    lemma_video_track(stream);
    lemma_audio_track(audio);
    assert(track(movie, 1) == Some(replay_mp4::video_track(stream)) && track(movie, 2) == Some(
        replay_mp4::audio_track(audio),
    )) by {
        lemma_first_track(3, stream, audio_box + defaults);
        let header = child(replay_mp4::audio_track(audio), kind_number("tkhd"@))->0;
        lemma_track(replay_mp4::audio_track(audio), defaults, header, 2);
    }
    assert(track_media(file, 1) == Some(replay_mp4::video_media(stream)));
    assert(track_media(file, 2) == Some(replay_mp4::audio_media(audio)));
    let entry = replay_mp4::opus_entry(audio);
    lemma_opus_entry(audio);
    lemma_description(
        replay_mp4::SMHD,
        replay_mp4::full(0, 0) + wire::zeros(4),
        replay_mp4::OPUS,
        entry,
    );
    assert(kind_number("Opus"@) == replay_mp4::OPUS);
    assert(sample_description(file, 2, "Opus"@) == Some(entry));
}

/// A container is written of H.264 video that starts at a keyframe. Other
/// histories are refused, each for its own reason.
pub proof fn containers_start_at_a_keyframe(stream: ReplayVideoStream, packets: Seq<PacketView>)
    ensures
        replay_mp4::video_container(stream, packets) is Ok ==> stream.codec
            == ReplayVideoCodec::H264 && packets.len() > 0 && packets[0].keyframe,
        stream.codec != ReplayVideoCodec::H264 ==> replay_mp4::video_container(stream, packets)
            == Err::<(Seq<u8>, u32), Mp4VideoError>(Mp4VideoError::UnsupportedCodec),
        stream.codec == ReplayVideoCodec::H264 && packets.len() == 0
            ==> replay_mp4::video_container(stream, packets) == Err::<(Seq<u8>, u32), Mp4VideoError>(
            Mp4VideoError::EmptyRing,
        ),
        stream.codec == ReplayVideoCodec::H264 && packets.len() > 0 && !packets[0].keyframe
            ==> replay_mp4::video_container(stream, packets) == Err::<(Seq<u8>, u32), Mp4VideoError>(
            Mp4VideoError::MissingInitialKeyframe,
        ),
{
}

/// A container starts with its file type.
pub proof fn containers_start_with_their_type(stream: ReplayVideoStream, packets: Seq<PacketView>)
    requires
        replay_mp4::video_container(stream, packets) is Ok,
    ensures
        word_at(replay_mp4::video_container(stream, packets)->Ok_0.0, 4) == kind_number("ftyp"@),
{
    reveal(replay_mp4::file_type);
    lemma_kinds();
    let file = replay_mp4::video_container(stream, packets)->Ok_0.0;
    let brands = wire::be32(replay_mp4::ISOM) + wire::be32(0x200) + wire::be32(replay_mp4::ISOM)
        + wire::be32(replay_mp4::ISO6) + wire::be32(replay_mp4::AVC1) + wire::be32(
        replay_mp4::MP41,
    );
    let rest = file.skip(32);
    assert(replay_mp4::file_type().len() == 32);
    assert(file =~= replay_mp4::boxed(replay_mp4::FTYP, brands) + rest);
    lemma_box_front(replay_mp4::FTYP, brands, rest);
}

} // verus!
