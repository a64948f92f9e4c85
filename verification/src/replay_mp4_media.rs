//! What a reader of a container finds in its media data.
use crate::replay_media;
use crate::replay_media::{OpusPacketView, ReplayAudioSnapshot, ReplayVideoStream};
use crate::replay_mp4;
use crate::replay_mp4::{AUDIO_FRAGMENT_PACKETS, MAX_AUDIO_PACKET_BYTES, MDAT, MOOF, MOOV};
use crate::replay_ring::PacketView;
use crate::wire;
use vstd::prelude::*;

verus! {

/// The media data that a reader collects from a file, box after box: a box
/// states its own length, and those of other kinds are passed over. A file
/// that is no run of complete boxes has none.
pub open spec fn media_of(file: Seq<u8>) -> Option<Seq<u8>>
    decreases file.len(),
{
    if file.len() == 0 {
        Some(Seq::empty())
    } else if file.len() < 8 || wire::from_be32(file) < 8 || wire::from_be32(file) > file.len() {
        None
    } else {
        let size = wire::from_be32(file) as int;
        match media_of(file.skip(size)) {
            None => None,
            Some(rest) => Some(
                if wire::from_be32(file.skip(4)) == MDAT {
                    file.subrange(8, size) + rest
                } else {
                    rest
                },
            ),
        }
    }
}

/// The contents of a box stand behind its size and its kind.
proof fn lemma_contents(kind: u32, contents: Seq<u8>)
    ensures
        replay_mp4::boxed(kind, contents).len() == contents.len() + 8,
        replay_mp4::boxed(kind, contents).skip(8) == contents,
{
    assert(replay_mp4::boxed(kind, contents).skip(8) =~= contents);
}

/// A fragment header is one box, not much longer than its run entries.
proof fn lemma_header_is_a_box(
    sequence: u32,
    track: u32,
    base_time: u64,
    run_flags: u32,
    samples: u32,
    data_offset: u32,
    entries: Seq<u8>,
)
    ensures
        ({
            let header = replay_mp4::fragment_box(
                sequence,
                track,
                base_time,
                run_flags,
                samples,
                data_offset,
                entries,
            );
            &&& header == replay_mp4::boxed(MOOF, header.skip(8))
            &&& 8 <= header.len() <= entries.len() + 100
        }),
{
    reveal(replay_mp4::fragment_box);
    let number = replay_mp4::full(0, 0) + wire::be32(sequence);
    let place = replay_mp4::full(0, 0x0002_0000) + wire::be32(track);
    let time = replay_mp4::full(1, 0) + wire::be64(base_time);
    let run = replay_mp4::full(0, run_flags) + wire::be32(samples) + wire::be32(data_offset)
        + entries;
    let inner = replay_mp4::boxed(replay_mp4::TFHD, place) + replay_mp4::boxed(
        replay_mp4::TFDT,
        time,
    ) + replay_mp4::boxed(replay_mp4::TRUN, run);
    lemma_contents(replay_mp4::MFHD, number);
    lemma_contents(replay_mp4::TFHD, place);
    lemma_contents(replay_mp4::TFDT, time);
    lemma_contents(replay_mp4::TRUN, run);
    lemma_contents(replay_mp4::TRAF, inner);
    lemma_contents(
        MOOF,
        replay_mp4::boxed(replay_mp4::MFHD, number) + replay_mp4::boxed(replay_mp4::TRAF, inner),
    );
}

/// A reader takes one box off a file.
proof fn lemma_box_is_read(kind: u32, contents: Seq<u8>, rest: Seq<u8>)
    requires
        contents.len() + 8 <= u32::MAX,
        media_of(rest) is Some,
    ensures
        media_of(replay_mp4::boxed(kind, contents) + rest) == Some(
            if kind == MDAT {
                contents + media_of(rest)->0
            } else {
                media_of(rest)->0
            },
        ),
{
    let size = (contents.len() + 8) as u32;
    let file = replay_mp4::boxed(kind, contents) + rest;
    wire::big_endian_round_trip(size);
    wire::big_endian_round_trip(kind);
    let lengths = wire::be32(size);
    let kinds = wire::be32(kind);
    assert(file[0] == lengths[0] && file[1] == lengths[1] && file[2] == lengths[2] && file[3]
        == lengths[3]);
    let after = file.skip(4);
    assert(after[0] == kinds[0] && after[1] == kinds[1] && after[2] == kinds[2] && after[3]
        == kinds[3]);
    assert(wire::from_be32(file) == size);
    assert(wire::from_be32(after) == kind);
    assert(file.skip(size as int) =~= rest);
    assert(file.subrange(8, size as int) =~= contents);
}

/// A reader takes a fragment off a file: a header of one box, and its media.
proof fn lemma_fragment_is_read(moof: Seq<u8>, media: Seq<u8>, rest: Seq<u8>)
    requires
        moof.len() + 8 <= u32::MAX,
        media.len() + 8 <= u32::MAX,
        media_of(rest) is Some,
    ensures
        media_of(
            replay_mp4::boxed(MOOF, moof) + replay_mp4::boxed(MDAT, media) + rest,
        ) == Some(media + media_of(rest)->0),
{
    let tail = replay_mp4::boxed(MDAT, media) + rest;
    lemma_box_is_read(MDAT, media, rest);
    lemma_box_is_read(MOOF, moof, tail);
    assert(replay_mp4::boxed(MOOF, moof) + replay_mp4::boxed(MDAT, media) + rest
        =~= replay_mp4::boxed(MOOF, moof) + tail);
}

/// The payloads of two runs of packets follow each other.
proof fn lemma_payload_splits(first: Seq<PacketView>, second: Seq<PacketView>)
    ensures
        replay_mp4::payload(first + second) == replay_mp4::payload(first) + replay_mp4::payload(
            second,
        ),
    decreases second.len(),
{
    if second.len() == 0 {
        assert(first + second =~= first);
        assert(replay_mp4::payload(first) + replay_mp4::payload(second) =~= replay_mp4::payload(
            first,
        ));
    } else {
        lemma_payload_splits(first, second.drop_last());
        assert((first + second).drop_last() =~= first + second.drop_last());
        assert(replay_mp4::payload(first + second) =~= replay_mp4::payload(first)
            + replay_mp4::payload(second));
    }
}

/// The payloads of two runs of Opus packets follow each other.
proof fn lemma_opus_payload_splits(first: Seq<OpusPacketView>, second: Seq<OpusPacketView>)
    ensures
        replay_mp4::opus_payload(first + second) == replay_mp4::opus_payload(first)
            + replay_mp4::opus_payload(second),
    decreases second.len(),
{
    if second.len() == 0 {
        assert(first + second =~= first);
        assert(replay_mp4::opus_payload(first) + replay_mp4::opus_payload(second)
            =~= replay_mp4::opus_payload(first));
    } else {
        lemma_opus_payload_splits(first, second.drop_last());
        assert((first + second).drop_last() =~= first + second.drop_last());
        assert(replay_mp4::opus_payload(first + second) =~= replay_mp4::opus_payload(first)
            + replay_mp4::opus_payload(second));
    }
}

/// Opus packets that fit bound their payload.
proof fn lemma_opus_payload_length(packets: Seq<OpusPacketView>)
    requires
        replay_mp4::all_opus_fit(packets),
    ensures
        replay_mp4::opus_payload(packets).len() <= MAX_AUDIO_PACKET_BYTES * packets.len(),
    decreases packets.len(),
{
    if packets.len() > 0 {
        let before = packets.drop_last();
        assert forall|i: int| 0 <= i < before.len() implies replay_mp4::opus_packet_fits(
            #[trigger] before[i],
        ) by {
            assert(replay_mp4::opus_packet_fits(packets[i]));
        }
        lemma_opus_payload_length(before);
        assert(replay_mp4::opus_packet_fits(packets[packets.len() - 1]));
        assert(MAX_AUDIO_PACKET_BYTES * packets.len() == MAX_AUDIO_PACKET_BYTES * before.len()
            + MAX_AUDIO_PACKET_BYTES) by (nonlinear_arith)
            requires
                packets.len() == before.len() + 1,
        ;
    }
}

/// A video fragment is read back as the payload of its packets.
proof fn lemma_video_fragment_is_read(
    sequence: u32,
    origin_ns: u64,
    packets: Seq<PacketView>,
    rest: Seq<u8>,
)
    requires
        replay_mp4::video_fragment(sequence, origin_ns, packets) is Ok,
        media_of(rest) is Some,
    ensures
        media_of(replay_mp4::video_fragment(sequence, origin_ns, packets)->Ok_0 + rest) == Some(
            replay_mp4::payload(packets) + media_of(rest)->0,
        ),
{
    reveal(replay_mp4::video_fragment_header);
    reveal(replay_mp4::video_header);
    let media = replay_mp4::payload(packets);
    let base_time = replay_mp4::in_timescale(packets[0].timestamp_ns - origin_ns)->0 as u64;
    let provisional = replay_mp4::video_header(sequence, base_time, packets, 0)->Ok_0;
    let data_offset = (provisional.len() + 8) as u32;
    let header = replay_mp4::video_header(sequence, base_time, packets, data_offset)->Ok_0;
    let entries = replay_mp4::sample_entries(packets, packets.len() as int)->Ok_0;
    lemma_header_is_a_box(
        sequence,
        replay_mp4::TRACK_ID,
        base_time,
        0x0701,
        packets.len() as u32,
        data_offset,
        entries,
    );
    let moof = header.skip(8);
    lemma_fragment_is_read(moof, media, rest);
}

/// The fragments from `start` on are read back as the payload of the packets
/// from `start` on.
proof fn lemma_video_is_read(
    packets: Seq<PacketView>,
    origin_ns: u64,
    start: int,
    sequence: u32,
    rest: Seq<u8>,
)
    requires
        0 <= start <= packets.len(),
        replay_mp4::video_fragments(packets, origin_ns, start, sequence) is Ok,
        media_of(rest) is Some,
    ensures
        media_of(
            replay_mp4::video_fragments(packets, origin_ns, start, sequence)->Ok_0.0 + rest,
        ) == Some(replay_mp4::payload(packets.skip(start)) + media_of(rest)->0),
    decreases packets.len() - start,
{
    let found = media_of(rest)->0;
    let all = replay_mp4::video_fragments(packets, origin_ns, start, sequence)->Ok_0.0;
    if start == packets.len() {
        assert(all + rest =~= rest);
        assert(packets.skip(start) =~= Seq::empty());
        assert(replay_mp4::payload(packets.skip(start)) + found =~= found);
    } else {
        replay_mp4::lemma_boundary_range(packets, start, start + 1);
        let end = replay_mp4::next_boundary(packets, start, start + 1);
        let number = replay_mp4::next_sequence(sequence);
        let part = packets.subrange(start, end);
        let fragment = replay_mp4::video_fragment(number, origin_ns, part)->Ok_0;
        let later = replay_mp4::video_fragments(packets, origin_ns, end, number)->Ok_0.0;
        lemma_video_is_read(packets, origin_ns, end, number, rest);
        lemma_video_fragment_is_read(number, origin_ns, part, later + rest);
        assert(all + rest =~= fragment + (later + rest));
        lemma_payload_splits(part, packets.skip(end));
        assert(part + packets.skip(end) =~= packets.skip(start));
        assert(replay_mp4::payload(part) + (replay_mp4::payload(packets.skip(end)) + found)
            =~= replay_mp4::payload(packets.skip(start)) + found);
    }
}

/// An audio fragment is read back as the payload of its packets.
proof fn lemma_audio_fragment_is_read(
    sequence: u32,
    origin_ns: u64,
    packets: Seq<OpusPacketView>,
    rest: Seq<u8>,
)
    requires
        replay_mp4::audio_fragment(sequence, origin_ns, packets) is Ok,
        replay_mp4::all_opus_fit(packets),
        packets.len() <= AUDIO_FRAGMENT_PACKETS,
        media_of(rest) is Some,
    ensures
        media_of(replay_mp4::audio_fragment(sequence, origin_ns, packets)->Ok_0 + rest) == Some(
            replay_mp4::opus_payload(packets) + media_of(rest)->0,
        ),
{
    reveal(replay_mp4::audio_fragment);
    reveal(replay_mp4::audio_header);
    let media = replay_mp4::opus_payload(packets);
    let entries = replay_mp4::opus_entries(packets, packets.len() as int);
    lemma_opus_payload_length(packets);
    replay_mp4::lemma_opus_entries_length(packets, packets.len() as int);
    let samples = (packets[0].timestamp_ns - origin_ns) * replay_mp4::AUDIO_TIMESCALE;
    let base_time = (samples / replay_mp4::NANOSECONDS as int) as u64;
    let length = replay_mp4::audio_header(sequence, base_time, packets, 0).len();
    let data_offset = (length + 8) as u32;
    let header = replay_mp4::audio_header(sequence, base_time, packets, data_offset);
    lemma_header_is_a_box(
        sequence,
        replay_mp4::AUDIO_TRACK_ID,
        base_time,
        0x0301,
        packets.len() as u32,
        data_offset,
        entries,
    );
    let moof = header.skip(8);
    lemma_fragment_is_read(moof, media, rest);
}

/// The audio fragments from `start` on are read back as the payload of the
/// Opus packets from `start` on.
proof fn lemma_audio_is_read(
    packets: Seq<OpusPacketView>,
    origin_ns: u64,
    start: int,
    sequence: u32,
)
    requires
        0 <= start <= packets.len(),
        replay_mp4::all_opus_fit(packets),
        replay_mp4::audio_fragments(packets, origin_ns, start, sequence) is Ok,
    ensures
        media_of(replay_mp4::audio_fragments(packets, origin_ns, start, sequence)->Ok_0.0) == Some(
            replay_mp4::opus_payload(packets.skip(start)),
        ),
    decreases packets.len() - start,
{
    if start == packets.len() {
        assert(packets.skip(start) =~= Seq::empty());
    } else {
        let end = if start + AUDIO_FRAGMENT_PACKETS < packets.len() {
            start + AUDIO_FRAGMENT_PACKETS
        } else {
            packets.len() as int
        };
        let number = replay_mp4::next_sequence(sequence);
        let part = packets.subrange(start, end);
        assert forall|i: int| 0 <= i < part.len() implies replay_mp4::opus_packet_fits(
            #[trigger] part[i],
        ) by {
            assert(replay_mp4::opus_packet_fits(packets[start + i]));
        }
        let later = replay_mp4::audio_fragments(packets, origin_ns, end, number)->Ok_0.0;
        lemma_audio_is_read(packets, origin_ns, end, number);
        lemma_audio_fragment_is_read(number, origin_ns, part, later);
        lemma_opus_payload_splits(part, packets.skip(end));
        assert(part + packets.skip(end) =~= packets.skip(start));
    }
}

/// A reader passes over the file type and the initialization.
proof fn lemma_initialization_is_skipped(movie: Seq<u8>, rest: Seq<u8>)
    requires
        movie.len() + 8 <= u32::MAX,
        media_of(rest) is Some,
    ensures
        media_of(replay_mp4::file_type() + replay_mp4::boxed(MOOV, movie) + rest) == media_of(rest),
{
    reveal(replay_mp4::file_type);
    let file_type = replay_mp4::file_type();
    assert(exists|inner: Seq<u8>|
        file_type == #[trigger] replay_mp4::boxed(replay_mp4::FTYP, inner));
    let contents = choose|inner: Seq<u8>|
        file_type == #[trigger] replay_mp4::boxed(replay_mp4::FTYP, inner);
    lemma_contents(replay_mp4::FTYP, contents);
    assert(file_type.len() == 32);
    lemma_box_is_read(MOOV, movie, rest);
    lemma_box_is_read(replay_mp4::FTYP, contents, replay_mp4::boxed(MOOV, movie) + rest);
    assert(file_type + replay_mp4::boxed(MOOV, movie) + rest =~= file_type + (replay_mp4::boxed(
        MOOV,
        movie,
    ) + rest));
}

/// A container gives back the video it was written from: it is a run of
/// complete boxes, whose media data is the payload of every packet in order.
pub proof fn video_is_read_back(stream: ReplayVideoStream, packets: Seq<PacketView>)
    requires
        replay_mp4::video_container(stream, packets) is Ok,
    ensures
        media_of(replay_mp4::video_container(stream, packets)->Ok_0.0) == Some(
            replay_mp4::payload(packets),
        ),
{
    reveal(replay_mp4::video_movie);
    let origin = packets[0].timestamp_ns;
    let fragments = replay_mp4::video_fragments(packets, origin, 0, 0)->Ok_0.0;
    let none = Seq::<u8>::empty();
    lemma_video_is_read(packets, origin, 0, 0, none);
    assert(fragments + none =~= fragments);
    assert(packets.skip(0) =~= packets);
    assert(replay_mp4::payload(packets) + none =~= replay_mp4::payload(packets));
    let movie = replay_mp4::video_movie(stream);
    assert(exists|inner: Seq<u8>| movie == #[trigger] replay_mp4::boxed(MOOV, inner));
    let contents = choose|inner: Seq<u8>| movie == #[trigger] replay_mp4::boxed(MOOV, inner);
    lemma_contents(MOOV, contents);
    lemma_initialization_is_skipped(contents, fragments);
}

/// A container with audio gives back the video and then the audio that
/// belongs to it, each packet in order.
#[verifier::spinoff_prover]
#[verifier::rlimit(80)]
pub proof fn audio_and_video_are_read_back(
    stream: ReplayVideoStream,
    packets: Seq<PacketView>,
    audio: ReplayAudioSnapshot,
)
    requires
        replay_mp4::audio_video_container(stream, packets, audio) is Ok,
    ensures
        media_of(replay_mp4::audio_video_container(stream, packets, audio)->Ok_0.0) == Some(
            replay_mp4::payload(packets) + replay_mp4::opus_payload(
                replay_mp4::history_audio(packets, replay_media::opus_views(audio.packets@)),
            ),
        ),
{
    reveal(replay_mp4::audio_video_movie);
    let origin = packets[0].timestamp_ns;
    let heard = replay_mp4::history_audio(packets, replay_media::opus_views(audio.packets@));
    let (video, count) = replay_mp4::video_fragments(packets, origin, 0, 0)->Ok_0;
    let (sound, last) = replay_mp4::audio_fragments(heard, origin, 0, count)->Ok_0;
    lemma_audio_is_read(heard, origin, 0, count);
    assert(heard.skip(0) =~= heard);
    lemma_video_is_read(packets, origin, 0, 0, sound);
    assert(packets.skip(0) =~= packets);
    let movie = replay_mp4::audio_video_movie(stream, audio);
    assert(exists|inner: Seq<u8>| movie == #[trigger] replay_mp4::boxed(MOOV, inner));
    let contents = choose|inner: Seq<u8>| movie == #[trigger] replay_mp4::boxed(MOOV, inner);
    lemma_contents(MOOV, contents);
    lemma_initialization_is_skipped(contents, video + sound);
    assert(replay_mp4::file_type() + movie + video + sound =~= replay_mp4::file_type() + movie + (
    video + sound));
}

} // verus!
