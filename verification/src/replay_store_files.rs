//! What the operations of a store do to the files in its directory.
use crate::replay_media::{ReplayAudioSnapshot, ReplayVideoStream};
use crate::replay_preferences::ReplayOutputFormat;
use crate::replay_ring::PacketView;
use crate::replay_store;
use crate::replay_store::{
    archive_step, check_archive_destination, check_clip_identifier, ArchiveStep, ClipView,
    ClipWriter, ReplayStoreError, SaveOutcome, StorePath, CLIP_PREFIX,
};
use vstd::prelude::*;
use vstd::string::*;

verus! {

/// The archive's name in the directory of a store.
pub const ARCHIVE_NAME: &'static str = "original";

/// What stands at a path.
pub ghost struct StoredFile {
    pub kind: StorePath,
    pub mode: u32,
    pub contents: Seq<u8>,
}

/// What kind of thing stands at a path below a store's directory.
pub open spec fn kind_at(files: Map<Seq<char>, StoredFile>, path: Seq<char>) -> StorePath {
    if files.contains_key(path) {
        files[path].kind
    } else {
        StorePath::Absent
    }
}

/// Where a clip stands once it is archived.
pub open spec fn archived_path(name: Seq<char>) -> Seq<char> {
    ARCHIVE_NAME@ + "/"@ + name
}

/// Whether the inventory lists a name: that of a clip, at a regular file.
pub open spec fn listed(files: Map<Seq<char>, StoredFile>, name: Seq<char>) -> bool {
    replay_store::is_clip_name(name) && kind_at(files, name) is File
}

/// The files after the archive was prepared.
pub open spec fn prepared(files: Map<Seq<char>, StoredFile>, step: ArchiveStep) -> Map<
    Seq<char>,
    StoredFile,
> {
    match step {
        ArchiveStep::Ready => files,
        _ => files.insert(
            ARCHIVE_NAME@,
            StoredFile { kind: StorePath::Directory, mode: 0o700, contents: Seq::empty() },
        ),
    }
}

/// The files after a clip was to be archived, and whether it was.
pub open spec fn after_archive(files: Map<Seq<char>, StoredFile>, name: Seq<char>) -> (
    Map<Seq<char>, StoredFile>,
    bool,
) {
    if !replay_store::is_clip_name(name) {
        (files, false)
    } else {
        match replay_store::archive_plan(
            kind_at(files, name),
            kind_at(files, ARCHIVE_NAME@),
            files[ARCHIVE_NAME@].mode,
        ) {
            Err(_) => (files, false),
            Ok(step) => if kind_at(files, archived_path(name)) !is Absent {
                (prepared(files, step), false)
            } else {
                (
                    prepared(files, step).remove(name).insert(archived_path(name), files[name]),
                    true,
                )
            },
        }
    }
}

/// What to do to archive a clip.
#[derive(Debug)]
pub enum ArchivePlan {
    /// Change nothing and report why.
    Refuse(ReplayStoreError),
    /// Prepare the archive, then report why the clip stays.
    PrepareOnly(ArchiveStep, ReplayStoreError),
    /// Prepare the archive, then move the clip into it.
    Move(ArchiveStep),
}

/// The files after a plan was carried out, and whether the clip was archived.
pub open spec fn carried_out(
    files: Map<Seq<char>, StoredFile>,
    name: Seq<char>,
    plan: ArchivePlan,
) -> (Map<Seq<char>, StoredFile>, bool) {
    match plan {
        ArchivePlan::Refuse(_) => (files, false),
        ArchivePlan::PrepareOnly(step, _) => (prepared(files, step), false),
        ArchivePlan::Move(step) => (
            prepared(files, step).remove(name).insert(archived_path(name), files[name]),
            true,
        ),
    }
}

/// Whether files are as they were found: what stands at a clip's path, at the
/// archive's with its mode, and at the clip's path in the archive.
pub open spec fn found(
    files: Map<Seq<char>, StoredFile>,
    name: Seq<char>,
    source: StorePath,
    archive: StorePath,
    archive_mode: u32,
    destination: StorePath,
) -> bool {
    &&& kind_at(files, name) == source
    &&& kind_at(files, ARCHIVE_NAME@) == archive
    &&& archive is Directory ==> files[ARCHIVE_NAME@].mode == archive_mode
    &&& kind_at(files, archived_path(name)) == destination
}

/// Plans how a clip is archived, given what stands at its path, at the
/// archive's with its mode, and at the clip's path in the archive.
pub fn plan_archive(
    file_name: &str,
    source: StorePath,
    archive: StorePath,
    archive_mode: u32,
    destination: StorePath,
) -> (plan: ArchivePlan)
    ensures
        match plan {
            ArchivePlan::Refuse(error) => if !replay_store::is_clip_name(file_name@) {
                error@ == "replay clip identifier is not a Redunar-generated name"@
            } else {
                replay_store::archive_plan(source, archive, archive_mode) matches Err(fault)
                    && error@ == fault@
            },
            ArchivePlan::PrepareOnly(step, error) => {
                &&& replay_store::is_clip_name(file_name@)
                &&& replay_store::archive_plan(source, archive, archive_mode) == Ok::<
                    ArchiveStep,
                    &'static str,
                >(step)
                &&& destination !is Absent
                &&& error@ == "an archived original with that name already exists"@
            },
            ArchivePlan::Move(step) => {
                &&& replay_store::is_clip_name(file_name@)
                &&& replay_store::archive_plan(source, archive, archive_mode) == Ok::<
                    ArchiveStep,
                    &'static str,
                >(step)
                &&& destination is Absent
            },
        },
        forall|files: Map<Seq<char>, StoredFile>|
            found(files, file_name@, source, archive, archive_mode, destination)
                ==> #[trigger] after_archive(files, file_name@) == carried_out(
                files,
                file_name@,
                plan,
            ),
{
    if let Err(error) = check_clip_identifier(file_name) {
        return ArchivePlan::Refuse(error);
    }
    match archive_step(source, archive, archive_mode) {
        Err(error) => ArchivePlan::Refuse(error),
        Ok(step) => match check_archive_destination(destination) {
            Err(error) => ArchivePlan::PrepareOnly(step, error),
            Ok(()) => ArchivePlan::Move(step),
        },
    }
}

/// Neither the archive nor anything in it has a clip's name.
proof fn lemma_archive_is_no_clip(name: Seq<char>)
    ensures
        !replay_store::is_clip_name(ARCHIVE_NAME@),
        !replay_store::is_clip_name(archived_path(name)),
        archived_path(name) != ARCHIVE_NAME@,
{
    reveal_strlit("original");
    reveal_strlit("/");
    reveal_strlit("redunar-replay-");
    let path = archived_path(name);
    assert(path.len() > ARCHIVE_NAME@.len());
    assert(path[0] == 'o');
    assert(ARCHIVE_NAME@[0] == 'o');
    assert(CLIP_PREFIX@[0] == 'r');
    let start = CLIP_PREFIX@.len() as int;
    if replay_store::is_clip_name(path) {
        assert(path.take(start)[0] == path[0]);
    }
    if replay_store::is_clip_name(ARCHIVE_NAME@) {
        assert(ARCHIVE_NAME@.take(start)[0] == ARCHIVE_NAME@[0]);
    }
}

/// Archiving a listed clip moves it, with what it holds, below a private
/// archive. Exactly its name leaves the inventory, nothing else changes, and
/// it cannot be archived again.
pub proof fn archiving_moves_one_clip(files: Map<Seq<char>, StoredFile>, name: Seq<char>)
    requires
        listed(files, name),
        kind_at(files, ARCHIVE_NAME@) is Absent || kind_at(files, ARCHIVE_NAME@) is Directory,
        kind_at(files, archived_path(name)) is Absent,
    ensures
        ({
            let (next, done) = after_archive(files, name);
            &&& done
            &&& next.contains_key(archived_path(name))
            &&& next[archived_path(name)] == files[name]
            &&& !next.contains_key(name)
            &&& kind_at(next, ARCHIVE_NAME@) is Directory
            &&& next[ARCHIVE_NAME@].mode & 0o777 == 0o700
            &&& forall|other: Seq<char>|
                #[trigger] listed(next, other) <==> listed(files, other) && other != name
            &&& forall|path: Seq<char>|
                path != name && path != ARCHIVE_NAME@ && path != archived_path(name) ==> (
                #[trigger] next.contains_key(path) <==> files.contains_key(path)) && next[path]
                    == files[path]
            &&& after_archive(next, name) == (next, false)
        }),
{
    lemma_archive_is_no_clip(name);
    assert(0o700u32 & 0o777 == 0o700) by (bit_vector);
    let (next, done) = after_archive(files, name);
    assert(name != archived_path(name) && name != ARCHIVE_NAME@);
    assert forall|other: Seq<char>| #[trigger] listed(next, other) <==> listed(files, other)
        && other != name by {
        lemma_archive_is_no_clip(other);
    }
}

/// The bytes that are written for a clip, or how its failure is explained.
/// `matroska` is what the Matroska writers give.
pub open spec fn clip_outcome(
    writer: ClipWriter,
    stream: ReplayVideoStream,
    packets: Seq<PacketView>,
    audio: ReplayAudioSnapshot,
    limit: u64,
    matroska: spec_fn(ClipWriter) -> Result<Seq<u8>, Seq<char>>,
) -> Result<Seq<u8>, Seq<char>> {
    match writer {
        ClipWriter::VideoOnlyMp4 => replay_store::video_outcome(stream, packets, limit),
        ClipWriter::AudioVideoMp4 => replay_store::audio_video_outcome(
            stream,
            packets,
            audio,
            limit,
        ),
        _ => matroska(writer),
    }
}

/// A clip that was written, and what its save comes to.
pub ghost struct SavedClip {
    pub file_name: Seq<char>,
    pub contents: Seq<u8>,
    pub outcome: SaveOutcome,
}

/// What a save does beside the clips that there are: a clip that cannot be
/// written changes nothing.
pub open spec fn clip_saved(
    clips: Seq<ClipView>,
    written: Result<Seq<u8>, Seq<char>>,
    file_name: Seq<char>,
    modified_ns: i128,
    storage_limit_bytes: u64,
    keep_existing: bool,
) -> Result<SavedClip, Seq<char>> {
    match written {
        Err(explanation) => Err(explanation),
        Ok(contents) => Ok(
            SavedClip {
                file_name,
                contents,
                outcome: replay_store::after_save(
                    clips,
                    ClipView {
                        file_name: vstd::utf8::encode_utf8(file_name),
                        bytes: contents.len() as u64,
                        modified_ns,
                    },
                    storage_limit_bytes,
                    keep_existing,
                ),
            },
        ),
    }
}

/// A save without audio packets is a save of the video alone, in either
/// format: the same name, contents and removals, or the same failure.
pub proof fn silent_saves_are_video_only(
    clips: Seq<ClipView>,
    stream: ReplayVideoStream,
    packets: Seq<PacketView>,
    audio: ReplayAudioSnapshot,
    format: ReplayOutputFormat,
    matroska: spec_fn(ClipWriter) -> Result<Seq<u8>, Seq<char>>,
    file_name: Seq<char>,
    modified_ns: i128,
    clip_limit: u64,
    storage_limit_bytes: u64,
)
    requires
        audio.packets@.len() == 0,
    ensures
        replay_store::writer_for(format, audio.packets@.len() > 0) == replay_store::writer_for(
            format,
            false,
        ),
        replay_store::audio_video_outcome(stream, packets, audio, clip_limit)
            == replay_store::video_outcome(stream, packets, clip_limit),
        clip_saved(
            clips,
            clip_outcome(
                replay_store::writer_for(format, audio.packets@.len() > 0),
                stream,
                packets,
                audio,
                clip_limit,
                matroska,
            ),
            file_name,
            modified_ns,
            storage_limit_bytes,
            false,
        ) == clip_saved(
            clips,
            clip_outcome(
                replay_store::writer_for(format, false),
                stream,
                packets,
                audio,
                clip_limit,
                matroska,
            ),
            file_name,
            modified_ns,
            storage_limit_bytes,
            false,
        ),
{
}

/// Originals are kept in a directory of the store, under their own names.
pub proof fn originals_keep_their_names(name: Seq<char>, other: Seq<char>)
    ensures
        archived_path(name) == "original/"@ + name,
        name != other ==> archived_path(name) != archived_path(other),
{
    reveal_strlit("original");
    reveal_strlit("/");
    reveal_strlit("original/");
    assert("original"@ + "/"@ =~= "original/"@);
    assert(archived_path(name).skip(9) =~= name);
    assert(archived_path(other).skip(9) =~= other);
}

} // verus!
