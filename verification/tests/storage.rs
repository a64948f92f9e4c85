use redunar::replay_media::{
    EncodedOpusPacket, OpusStreamDescription, ReplayAudioSnapshot, ReplayVideoCodec,
    ReplayVideoStream,
};
use redunar::replay_preferences::{
    check_stored_file, load_error, parse, serialize, set_hotkeys, set_initial_save_duration,
    set_output_format, set_outside_click, set_overlay_behavior, set_save_parent,
    set_save_shortcuts, ReplayOutputFormat, ReplayPreferences, ReplayShortcutBinding,
};
use redunar::replay_ring::{
    EncodedReplayPacket, ReplayBudget, ReplayRing, NANOSECONDS_PER_SECOND,
};
use redunar::replay_settings::{ReplayDuration, ReplayQuality};
use redunar::replay_spool::{
    assemble_snapshot, check_snapshot_segment, classify_entry, encode_record, marker_plan,
    parse_segment_name, read_segment_packets, segment_name, temporary_segment_name,
    validate_marker, MarkerPlan, PacketAdmission, QueueOutcome, ReplaySpoolPhase,
    ReplaySpoolSegment, ReplaySpoolSubmitError, SegmentContents, SpoolEntry, SpoolEntryKind,
    SpoolIndex, SpoolLimits, SpoolQueue, SpoolWorker, COMMAND_CAPACITY, MAX_SEGMENTS,
    MAX_SEGMENT_BYTES, MAX_WRITE_LATENCY_NS,
};
use redunar::replay_store::{
    archive_step, audio_video_clip, check_archive_destination, check_clip_identifier,
    check_deletion, check_fits, check_marker, check_matroska_header, check_mp4_header,
    check_store_directory, claim_step, clip_entry, clip_writer, enforce_quota,
    has_required_free_space,
    inventory_order, is_owned_clip_name, new_clip_name, new_temporary_name, plan_save, scan_step, shown_time,
    stored_clip, video_only_clip, ArchiveStep, ClaimStep, ClipWriter, CopyBudget, OwnedClip, ReplayClipStore,
    ReplayStorageStatus, SavePlan, StorePath, MAX_DIRECTORY_ENTRIES, MINIMUM_FILESYSTEM_RESERVE_BYTES,
};
use redunar::replay_store_files::{plan_archive, ArchivePlan};

fn binding(shortcut: &str, duration: ReplayDuration) -> ReplayShortcutBinding {
    ReplayShortcutBinding {
        shortcut: shortcut.to_owned(),
        duration,
    }
}

fn reloaded(preferences: &ReplayPreferences) -> ReplayPreferences {
    parse(&serialize(preferences)).expect("reload preferences")
}

#[test]
fn cleared_and_partial_hotkeys_round_trip_without_default_reactivation() {
    let mut state = ReplayPreferences::default();
    for (overlay, bindings) in [
        ("", vec![]),
        ("", vec![binding("F8", ReplayDuration::Seconds30)]),
        ("Ctrl+Tab", vec![]),
    ] {
        state = set_hotkeys(state, overlay.to_owned(), bindings.clone()).unwrap();
        let saved = reloaded(&state);
        assert_eq!(saved.overlay_shortcut, overlay);
        assert_eq!(saved.save_shortcuts, bindings);
        state = set_outside_click(saved, false);
        assert_eq!(reloaded(&state).overlay_shortcut, overlay);
    }
    state = set_hotkeys(state, "Ctrl+Shift+R".to_owned(), vec![]).unwrap();
    state = set_hotkeys(state, "Ctrl+Shift+T".to_owned(), vec![]).unwrap();
    state = set_outside_click(state, true);
    assert_eq!(reloaded(&state).overlay_shortcut, "Ctrl+Shift+T");
    assert!(set_hotkeys(state, "bad\nshortcut".to_owned(), vec![]).is_err());
}

#[test]
fn default_resolves_to_videos_with_state_fallback() {
    let preferences = ReplayPreferences::default();
    assert_eq!(preferences.overlay_shortcut, "Shift+Tab");
    assert!(preferences.close_overlay_on_outside_click);
    assert_eq!(
        preferences.resolved_directory(Some(b"/home/player"), b"/state"),
        b"/home/player/Videos/Redunar Replays".to_vec()
    );
    assert_eq!(
        preferences.resolved_directory(None, b"/state"),
        b"/state/replays-v1".to_vec()
    );
}

#[test]
fn updates_round_trip_without_creating_the_selected_parent() {
    let parent = b"/tmp/redunar-replay-selected-parent-does-not-exist".to_vec();
    let preferences = set_save_parent(ReplayPreferences::default(), Some(parent.clone()))
        .expect("save parent");
    assert_eq!(
        preferences.resolved_directory(Some(b"/home/player"), b"/state"),
        b"/tmp/redunar-replay-selected-parent-does-not-exist/Redunar Replays".to_vec()
    );
    let preferences = set_save_shortcuts(
        preferences,
        vec![
            binding("Super+F10", ReplayDuration::Seconds60),
            binding("Super+F11", ReplayDuration::Seconds300),
        ],
    )
    .expect("save shortcuts");
    let preferences = set_output_format(preferences, ReplayOutputFormat::Mp4);
    let preferences = set_initial_save_duration(preferences, ReplayDuration::Seconds120);
    let loaded = reloaded(&preferences);
    assert_eq!(loaded.custom_save_parent, Some(parent));
    assert_eq!(loaded.output_format, ReplayOutputFormat::Mp4);
    assert_eq!(loaded.overlay_shortcut, "Shift+Tab");
    assert_eq!(loaded.initial_save_duration, ReplayDuration::Seconds120);
    assert_eq!(loaded.save_shortcuts.len(), 2);
    assert_eq!(
        loaded.save_shortcuts[1].duration,
        ReplayDuration::Seconds300
    );
}

#[test]
fn unsafe_parent_shortcut_and_state_are_rejected() {
    assert!(set_save_parent(ReplayPreferences::default(), Some(b"relative".to_vec())).is_err());
    assert!(set_save_shortcuts(
        ReplayPreferences::default(),
        vec![binding("bad\nshortcut", ReplayDuration::Seconds30)]
    )
    .is_err());
    assert!(
        parse("redunar-replay-preferences-v1\nsave-parent=zz\nsave-shortcut=F10\n").is_err()
    );
}

#[test]
fn version_one_single_shortcut_migrates_to_a_thirty_second_binding() {
    let parsed =
        parse("redunar-replay-preferences-v1\nsave-parent=default\nsave-shortcut=Ctrl+Shift+S\n")
            .expect("parse v1");
    assert_eq!(
        parsed.save_shortcuts,
        vec![binding("Ctrl+Shift+S", ReplayDuration::Seconds30)]
    );
    assert_eq!(parsed.output_format, ReplayOutputFormat::Matroska);
}

#[test]
fn older_versions_migrate_and_version_five_round_trips_overlay_behavior() {
    let version_two = parse(
        "redunar-replay-preferences-v2\nsave-parent=default\nbinding-count=1\nbinding=30:F8\n",
    )
    .expect("parse v2");
    assert_eq!(version_two.output_format, ReplayOutputFormat::Matroska);
    assert_eq!(version_two.overlay_shortcut, "Shift+Tab");
    let mut version_four = version_two;
    version_four.output_format = ReplayOutputFormat::Mp4;
    version_four.overlay_shortcut = "Alt+F9".to_owned();
    version_four.close_overlay_on_outside_click = false;
    let parsed = parse(&serialize(&version_four)).expect("parse serialized v4");
    assert_eq!(parsed.output_format, ReplayOutputFormat::Mp4);
    assert_eq!(parsed.overlay_shortcut, "Alt+F9");
    assert!(!parsed.close_overlay_on_outside_click);
}

#[test]
fn overlay_and_direct_save_shortcuts_cannot_collide() {
    let result = set_hotkeys(
        ReplayPreferences::default(),
        "F8".to_owned(),
        vec![binding("F8", ReplayDuration::Seconds30)],
    );
    assert!(result.is_err());
}

#[test]
fn overlay_behavior_update_preserves_direct_save_bindings() {
    let saved = set_overlay_behavior(ReplayPreferences::default(), "Ctrl+Tab".to_owned(), false)
        .expect("save overlay behavior");
    assert_eq!(saved.overlay_shortcut, "Ctrl+Tab");
    assert!(!saved.close_overlay_on_outside_click);
    assert_eq!(
        saved.save_shortcuts,
        ReplayPreferences::default().save_shortcuts
    );
    assert!(set_overlay_behavior(saved, "F8".to_owned(), true).is_err());
}

#[test]
fn stored_preferences_are_bounded_regular_files() {
    assert_eq!(check_stored_file(true, 8_192), Ok(()));
    assert_eq!(check_stored_file(true, 8_193), Err("state is too large"));
    assert_eq!(
        check_stored_file(false, 1),
        Err("state is not a regular file")
    );
    assert_eq!(
        load_error("/state/x", "state is too large").message(),
        "could not load Replay preferences from /state/x: state is too large"
    );
    assert_eq!(
        serialize(&ReplayPreferences::default()),
        "redunar-replay-preferences-v6\nsave-parent=default\noutput-format=mkv\noverlay-shortcut=Shift+Tab\nclose-on-outside-click=true\ninitial-save-duration=30\nbinding-count=1\nbinding=30:F8\n"
    );
}

#[test]
fn free_space_gate_preserves_fixed_reserve_with_saturating_arithmetic() {
    assert!(has_required_free_space(
        MINIMUM_FILESYSTEM_RESERVE_BYTES + 4096,
        4096
    ));
    assert!(!has_required_free_space(
        MINIMUM_FILESYSTEM_RESERVE_BYTES + 4095,
        4096
    ));
    assert!(!has_required_free_space(u64::MAX, u64::MAX));
}

fn store(maximum_clip_bytes: u64, storage_limit_bytes: u64) -> ReplayClipStore {
    ReplayClipStore::with_limits(
        b"/replays".to_vec(),
        maximum_clip_bytes,
        storage_limit_bytes,
    )
    .expect("open store")
}

fn clip(id: u64, bytes: u64, modified_ns: i128) -> OwnedClip {
    OwnedClip {
        file_name: new_clip_name(1, 1, id, ReplayOutputFormat::Matroska).into_bytes(),
        bytes,
        modified_ns,
    }
}

#[test]
fn refuses_to_claim_relative_or_nonempty_unowned_directories() {
    assert!(ReplayClipStore::with_limits(b"relative".to_vec(), 32, 64).is_err());
    let error = claim_step(StorePath::Absent, true).expect_err("unowned directory must fail");
    assert!(error.message().contains("refusing to claim"));
    assert!(matches!(
        claim_step(StorePath::Absent, false),
        Ok(ClaimStep::WriteMarker)
    ));
    assert!(matches!(
        claim_step(StorePath::File, true),
        Ok(ClaimStep::Validate)
    ));
}

#[test]
fn read_only_inspection_does_not_initialize_a_missing_store() {
    assert_eq!(
        store(32, 64).missing_status(),
        ReplayStorageStatus {
            directory: b"/replays".to_vec(),
            initialized: false,
            owned_clips: 0,
            used_bytes: 0,
            storage_limit_bytes: 64,
            bytes_over_limit: 0,
        }
    );
    assert!(check_store_directory(StorePath::Absent).is_err());
}

#[test]
fn read_only_inspection_counts_only_owned_regular_clips_and_reports_overage() {
    assert_eq!(
        scan_step(0, b"redunar-replay-1-000000001-1.mkv"),
        Ok(true)
    );
    assert_eq!(scan_step(1, b"important.mkv"), Ok(false));
    assert!(scan_step(MAX_DIRECTORY_ENTRIES, b"x").is_err());
    let status = store(32, 40)
        .status(&[clip(1, 48, 0)])
        .expect("inspect owned store");
    assert!(status.initialized);
    assert_eq!(status.owned_clips, 1);
    assert_eq!(status.used_bytes, 48);
    assert_eq!(status.storage_limit_bytes, 40);
    assert_eq!(status.bytes_over_limit, 8);
    assert!(store(32, 40)
        .status(&[clip(1, u64::MAX, 0), clip(2, 1, 0)])
        .is_err());
}

#[test]
fn read_only_inspection_rejects_an_unowned_existing_directory() {
    assert!(check_marker(StorePath::Absent, 0, b"").is_err());
    assert!(check_store_directory(StorePath::Directory).is_ok());
}

#[test]
fn save_is_private_atomic_and_prunes_only_old_owned_clips() {
    let first = clip(1, 48, 10);
    let second = clip(2, 48, 20);
    let plan = enforce_quota(
        vec![clip(1, 48, 10), clip(2, 48, 20)],
        80,
        Some(&second.file_name),
    )
    .expect("plan");
    let report = stored_clip(b"/replays/clip".to_vec(), 48, &plan);
    assert_eq!(report.clips_removed_for_quota, 1);
    assert_eq!(report.bytes_removed_for_quota, 48);
    assert_eq!(plan.removed, vec![first]);
}

#[test]
fn edited_mp4_preserves_existing_clips_or_rejects_the_commit() {
    let error = check_fits(&[clip(1, 32, 0)], 24, 48).expect_err("edit must not evict its source");
    assert!(error.message().contains("without removing"));
}

#[test]
fn edited_mp4_commits_without_pruning_when_both_files_fit() {
    assert!(check_fits(&[clip(1, 32, 0)], 24, 80).is_ok());
    assert!(check_fits(&[clip(1, u64::MAX, 0)], 1, u64::MAX).is_err());
}

#[test]
fn quota_never_removes_the_newly_committed_clip_before_older_clips() {
    let older = b"redunar-replay-1-000000001-1.mkv".to_vec();
    let protected = b"redunar-replay-2-000000001-2.mkv".to_vec();
    let clips = vec![
        OwnedClip {
            file_name: protected.clone(),
            bytes: 48,
            modified_ns: 0,
        },
        OwnedClip {
            file_name: older.clone(),
            bytes: 48,
            modified_ns: 1_700_000_000_000_000_000,
        },
    ];
    let plan = enforce_quota(clips, 64, Some(&protected)).expect("enforce quota");
    assert_eq!((plan.removed.len(), plan.removed_bytes), (1, 48));
    assert_eq!(plan.removed[0].file_name, older);
}

#[test]
fn saves_are_planned_with_or_without_keeping_clips() {
    let clips = vec![clip(1, 40, 7), clip(2, 40, 6)];
    let new = clip(3, 30, 9);
    match plan_save(&clips, &new, 100, true) {
        SavePlan::Refuse(error) => assert_eq!(
            error.message(),
            "trimmed clip does not fit without removing an existing replay"
        ),
        other => panic!("{other:?}"),
    }
    match plan_save(&clips, &new, 110, true) {
        SavePlan::Commit(quota) => {
            assert!(quota.removed.is_empty());
            assert_eq!(quota.removed_bytes, 0);
        }
        other => panic!("{other:?}"),
    }
    match plan_save(&clips, &new, 100, false) {
        SavePlan::Commit(quota) => {
            assert_eq!(quota.removed, vec![clip(2, 40, 6)]);
            assert_eq!(quota.removed_bytes, 40);
        }
        other => panic!("{other:?}"),
    }
    match plan_save(&clips, &new, 30, false) {
        SavePlan::Commit(quota) => {
            assert_eq!(quota.removed, vec![clip(2, 40, 6), clip(1, 40, 7)]);
        }
        other => panic!("{other:?}"),
    }
    let huge = vec![clip(1, u64::MAX, 7)];
    match plan_save(&huge, &new, 100, false) {
        SavePlan::CommitUncounted(error) => {
            assert_eq!(error.message(), "replay store size overflows");
        }
        other => panic!("{other:?}"),
    }
    assert!(matches!(
        plan_save(&[clip(1, u64::MAX, 7), clip(2, 1, 7)], &new, 100, true),
        SavePlan::Refuse(_)
    ));
}

#[test]
fn archives_are_planned_from_what_was_found() {
    let name = "redunar-replay-1-000000001-2.mkv";
    let plan = |archive, mode, destination| {
        plan_archive(name, StorePath::File, archive, mode, destination)
    };
    assert!(matches!(
        plan(StorePath::Absent, 0, StorePath::Absent),
        ArchivePlan::Move(ArchiveStep::Create)
    ));
    assert!(matches!(
        plan(StorePath::Directory, 0o40755, StorePath::File),
        ArchivePlan::PrepareOnly(ArchiveStep::Secure, _)
    ));
    assert!(matches!(
        plan(StorePath::Other, 0, StorePath::Absent),
        ArchivePlan::Refuse(_)
    ));
    match plan_archive(
        "important.mkv",
        StorePath::File,
        StorePath::Absent,
        0,
        StorePath::Absent,
    ) {
        ArchivePlan::Refuse(error) => assert_eq!(
            error.message(),
            "replay clip identifier is not a Redunar-generated name"
        ),
        other => panic!("{other:?}"),
    }
}

#[test]
fn protected_clips_go_after_every_other() {
    let newest = clip(3, 40, -5);
    let plan = enforce_quota(
        vec![clip(3, 40, -5), clip(1, 40, 7), clip(2, 40, 6)],
        50,
        Some(&newest.file_name),
    )
    .expect("plan");
    assert_eq!(plan.removed, vec![clip(2, 40, 6), clip(1, 40, 7)]);
    assert_eq!(plan.removed_bytes, 80);
    let everything = enforce_quota(vec![clip(3, 40, -5)], 1, Some(&newest.file_name)).expect("plan");
    assert_eq!(everything.removed, vec![newest]);
}

#[test]
fn inventory_and_delete_are_limited_to_owned_regular_clip_names() {
    let shown = inventory_order(vec![clip(1, 1, 5), clip(2, 2, 9), clip(3, 3, 7)]);
    assert_eq!(
        shown,
        vec![clip(2, 2, 9), clip(3, 3, 7), clip(1, 1, 5)]
    );
    let entry = clip_entry(b"/replays", &clip(2, 2, -9)).expect("entry");
    assert_eq!(entry.file_name, "redunar-replay-1-000000001-2.mkv");
    assert_eq!(
        entry.path,
        b"/replays/redunar-replay-1-000000001-2.mkv".to_vec()
    );
    assert_eq!(entry.modified_unix_ns, 0);
    assert_eq!(shown_time(3), 3);
    assert!(check_clip_identifier("../escape.mkv").is_err());
    assert!(check_clip_identifier("redunar-replay-1-000000001-2.mp4").is_ok());
    assert!(check_deletion(StorePath::File).is_ok());
    assert!(check_deletion(StorePath::Other).is_err());
    assert!(!is_owned_clip_name(b"redunar-replay-1-000000001-2.avi"));
    assert!(!is_owned_clip_name(b"redunar-replay-x-000000001-2.mkv"));
    assert!(!is_owned_clip_name(b"redunar-replay-1.mkv"));
    assert!(!is_owned_clip_name(b"redunar-replay-1-2.mkv"));
    assert!(!is_owned_clip_name(b"redunar-replay-1-2-3-4.mkv"));
    assert!(!is_owned_clip_name(b"redunar-replay-1--3.mkv"));
    assert!(is_owned_clip_name(b"redunar-replay-1-2-3.mkv"));
    assert_eq!(new_temporary_name(4, 9), ".redunar-replay-4-9.tmp");
}

#[test]
fn archive_moves_owned_clip_under_original_without_inventory_pollution() {
    assert!(matches!(
        archive_step(StorePath::File, StorePath::Absent, 0),
        Ok(ArchiveStep::Create)
    ));
    assert!(matches!(
        archive_step(StorePath::File, StorePath::Directory, 0o40700),
        Ok(ArchiveStep::Ready)
    ));
    assert!(matches!(
        archive_step(StorePath::File, StorePath::Directory, 0o40755),
        Ok(ArchiveStep::Secure)
    ));
    assert!(archive_step(StorePath::Other, StorePath::Absent, 0).is_err());
    assert!(archive_step(StorePath::File, StorePath::Other, 0).is_err());
    assert!(check_archive_destination(StorePath::Absent).is_ok());
    assert!(check_archive_destination(StorePath::File).is_err());
}

#[test]
fn malformed_and_oversized_containers_leave_no_partial_clip() {
    let store = store(16, 32);
    let malformed = b"not-matroska";
    assert!(check_matroska_header(&malformed[..4]).is_err());
    let mut container = vec![0x1a, 0x45, 0xdf, 0xa3];
    container.resize(17, 3);
    assert!(check_matroska_header(&container[..4]).is_ok());
    let mut copied = CopyBudget::new(4, store.hard_limit());
    assert!(copied.accept(container.len() as u64 - 4).is_err());
    assert_eq!(copied.total, 4);
}

#[test]
fn containers_are_told_by_their_first_bytes_and_copied_within_a_budget() {
    assert_eq!(
        check_matroska_header(b"nope")
            .expect_err("not Matroska")
            .message(),
        "replay container is not Matroska"
    );
    assert!(check_mp4_header(b"\0\0\0\x18ftyp").is_ok());
    assert!(check_mp4_header(b"\0\0\0\x18moov").is_err());
    let mut copied = CopyBudget::new(4, 10);
    assert!(copied.accept(6).is_ok());
    assert_eq!(
        copied.accept(1).expect_err("over budget").message(),
        "replay container exceeds its configured byte budget"
    );
    assert_eq!(
        copied.accept(u64::MAX).expect_err("overflow").message(),
        "replay container size overflows"
    );
    assert_eq!(copied.total, 10);
}

#[test]
fn replaced_or_corrupt_ownership_marker_blocks_cleanup() {
    let marker = b"redunar-replay-store-v1\n";
    assert!(check_marker(StorePath::File, marker.len() as u64, marker).is_ok());
    assert!(check_marker(StorePath::File, 8, b"replaced").is_err());
    assert!(check_marker(StorePath::Other, marker.len() as u64, marker).is_err());
}

#[test]
fn store_requests_stay_within_the_clip_budget_and_the_free_space() {
    let store = store(80, 100);
    assert_eq!(store.hard_limit(), 80);
    assert!(store.check_clip_request(0).is_err());
    assert!(store.check_clip_request(81).is_err());
    assert!(store
        .ensure_free_space(80, MINIMUM_FILESYSTEM_RESERVE_BYTES + 80, 1)
        .is_ok());
    assert!(store
        .ensure_free_space(80, MINIMUM_FILESYSTEM_RESERVE_BYTES + 79, 1)
        .is_err());
    assert!(store.ensure_free_space(80, u64::MAX, u64::MAX).is_ok());
}

fn stream() -> ReplayVideoStream {
    ReplayVideoStream {
        codec: ReplayVideoCodec::H264,
        width: 1_920,
        height: 1_080,
        frames_per_second: 60,
        codec_private: vec![
            1, 66, 0, 30, 0xff, 0xe1, 0, 2, 0x67, 0x42, 1, 0, 2, 0x68, 0xce,
        ],
    }
}

fn packet(timestamp_ns: u64, keyframe: bool) -> EncodedReplayPacket {
    let nal = if keyframe { 0x65 } else { 0x41 };
    EncodedReplayPacket::new(
        timestamp_ns,
        1_000_000_000,
        keyframe,
        vec![0, 0, 0, 2, nal, 0x88],
    )
    .expect("packet")
}

fn short_packet(timestamp_ns: u64, keyframe: bool) -> EncodedReplayPacket {
    let nal = if keyframe { 0x65 } else { 0x41 };
    EncodedReplayPacket::new(
        timestamp_ns,
        16_666_667,
        keyframe,
        vec![0, 0, 0, 2, nal, 0x88],
    )
    .expect("short packet")
}

fn ring() -> ReplayRing {
    ReplayRing::new(
        900,
        ReplayBudget {
            frame_capacity: 1_800,
            maximum_ring_bytes: 90_000_000,
        },
    )
}

#[test]
fn mp4_ring_is_committed_and_included_in_owned_inventory() {
    let store = store(4_096, 8_192);
    let mut history = ring();
    history.push(short_packet(1, true)).expect("ring");
    let contents =
        video_only_clip(&stream(), &history, store.hard_limit()).expect("save generated MP4 clip");
    assert_eq!(&contents[4..8], b"ftyp");
    let name = new_clip_name(1, 2, 3, ReplayOutputFormat::Mp4);
    assert_eq!(name, "redunar-replay-1-000000002-3.mp4");
    assert_eq!(scan_step(0, name.as_bytes()), Ok(true));
}

#[test]
fn clips_are_held_to_their_limit_before_their_faults() {
    let mut history = ring();
    history.push(short_packet(1, true)).expect("ring");
    let clip = video_only_clip(&stream(), &history, 4_096).expect("clip");
    let length = clip.len() as u64;
    assert_eq!(video_only_clip(&stream(), &history, length), Ok(clip));
    let small = video_only_clip(&stream(), &history, length - 1).expect_err("over the limit");
    assert_eq!(
        small.message(),
        "could not finalize video-only MP4 replay: could not write replay container: replay container exceeds its configured byte budget"
    );
    let mut wide = stream();
    wide.width = 65_536;
    assert_eq!(
        video_only_clip(&wide, &history, 32)
            .expect_err("only the file type is written")
            .message(),
        "could not finalize video-only MP4 replay: replay container exceeds MP4 limits"
    );
    assert!(video_only_clip(&wide, &history, 31)
        .expect_err("the file type is over the limit")
        .message()
        .contains("exceeds its configured byte budget"));
    assert_eq!(
        video_only_clip(&stream(), &ring(), 0)
            .expect_err("nothing is written")
            .message(),
        "could not finalize video-only MP4 replay: replay ring contains no encoded video"
    );
}

#[test]
fn clips_without_audio_packets_are_video_only() {
    let mut history = ring();
    history.push(packet(1, true)).expect("keyframe");
    let mut audio = ReplayAudioSnapshot {
        stream: OpusStreamDescription {
            sample_rate: 48_000,
            channels: 2,
        },
        packets: Vec::new(),
    };
    assert_eq!(
        audio_video_clip(&stream(), &history, &audio, 1 << 20),
        video_only_clip(&stream(), &history, 1 << 20)
    );
    audio.packets.push(EncodedOpusPacket {
        timestamp_ns: 1,
        duration_ns: 20_000_000,
        bytes: vec![0xf8, 0xff, 0xfe],
    });
    let clip = audio_video_clip(&stream(), &history, &audio, 1 << 20).expect("clip");
    assert!(clip.windows(4).any(|window| window == b"dOps"));
    audio.packets[0].bytes = vec![0; 4_097];
    assert_eq!(
        audio_video_clip(&stream(), &history, &audio, 0)
            .expect_err("refused before anything is written")
            .message(),
        "could not finalize audio/video MP4 replay: replay packet cannot be muxed"
    );
    assert_eq!(
        clip_writer(ReplayOutputFormat::Matroska, false),
        ClipWriter::VideoOnlyMatroska
    );
    assert_eq!(
        clip_writer(ReplayOutputFormat::Matroska, true).failure("full").message(),
        "could not finalize audio/video Matroska replay: full"
    );
    assert_eq!(
        clip_writer(ReplayOutputFormat::Mp4, true),
        ClipWriter::AudioVideoMp4
    );
}

#[test]
fn invalid_encoder_framing_leaves_no_generated_clip_or_temporary_file() {
    let store = store(4_096, 8_192);
    let mut history = ring();
    history
        .push(
            EncodedReplayPacket::new(1, 16_666_667, true, vec![0, 0, 0, 9, 1])
                .expect("ring accepts opaque encoded bytes"),
        )
        .expect("ring");
    let error =
        video_only_clip(&stream(), &history, store.hard_limit()).expect_err("invalid framing");
    assert_eq!(
        error.message(),
        "could not finalize video-only MP4 replay: replay packet cannot be muxed"
    );
}

/// A spool whose files are held in memory.
struct MemorySpool {
    worker: SpoolWorker,
    open: Vec<u8>,
    files: Vec<(Vec<u8>, Vec<u8>)>,
}

impl MemorySpool {
    fn new(index: SpoolIndex, limits: SpoolLimits) -> Self {
        Self {
            worker: SpoolWorker::new(index, limits, 0),
            open: Vec::new(),
            files: Vec::new(),
        }
    }

    fn seal(&mut self) {
        if let Some(segment) = self.worker.current() {
            let name = segment_name(
                segment.sequence,
                segment.start_timestamp_ns,
                segment.end_timestamp_ns,
            );
            let path = name.into_bytes();
            let bytes = self.open.len() as u64;
            self.files.push((path.clone(), self.open.clone()));
            for removed in self.worker.committed(path, bytes) {
                self.files.retain(|(path, _)| *path != removed.path);
            }
        }
    }

    fn submit(&mut self, packet: &EncodedReplayPacket) -> bool {
        if self.worker.rotation(packet).is_some() {
            self.seal();
        }
        match self.worker.place_packet(packet) {
            PacketAdmission::Dropped => self.worker.conclude(packet, false, 0),
            PacketAdmission::KeyframeOverdue => self.worker.conclude(packet, true, 0),
            PacketAdmission::Append { create } => {
                if create {
                    self.open = b"RDNSEG01".to_vec();
                }
                self.open.extend(encode_record(packet));
                self.worker.appended(packet);
                self.worker.conclude(packet, false, 0)
            }
        }
    }

    fn contents(&self, segments: &[ReplaySpoolSegment]) -> Vec<SegmentContents> {
        segments
            .iter()
            .map(|segment| {
                let (_, contents) = self
                    .files
                    .iter()
                    .find(|(path, _)| *path == segment.path)
                    .expect("segment file");
                SegmentContents {
                    declared: segment.bytes,
                    contents: contents.clone(),
                }
            })
            .collect()
    }
}

fn limits() -> SpoolLimits {
    SpoolLimits::new(ReplayDuration::Seconds900, ReplayQuality::Efficient)
}

fn filled(seconds: u64) -> MemorySpool {
    let mut spool = MemorySpool::new(SpoolIndex::new(), limits());
    for second in 0..seconds {
        assert!(spool.submit(&packet(second * NANOSECONDS_PER_SECOND, second % 2 == 0)));
    }
    spool
}

#[test]
fn async_spool_keeps_present_path_queue_and_disk_history_bounded() {
    let spool = filled(40);
    let stats = spool.worker.stats(0, 0);
    assert!(stats.active_segments <= u32::try_from(MAX_SEGMENTS).unwrap_or(u32::MAX));
    assert!(stats.active_bytes <= limits().bytes);
    assert_eq!(stats.buffered_duration_ns, 40 * NANOSECONDS_PER_SECOND);
    assert_eq!(COMMAND_CAPACITY, 4);
    assert_eq!(MAX_SEGMENT_BYTES, 32 * 1024 * 1024);
}

#[test]
fn fifteen_minute_spool_budget_is_disk_bounded_without_growing_the_queue() {
    let efficient = SpoolLimits::new(ReplayDuration::Seconds900, ReplayQuality::Efficient);
    let balanced = SpoolLimits::new(ReplayDuration::Seconds900, ReplayQuality::Balanced);
    let high = SpoolLimits::new(ReplayDuration::Seconds900, ReplayQuality::High);
    assert_eq!(efficient.bytes, 1_485_000_000);
    assert_eq!(balanced.bytes, 2_970_000_000);
    assert_eq!(high.bytes, 4_950_000_000);
    assert_eq!(COMMAND_CAPACITY, 4);
    assert_eq!(MAX_SEGMENTS, 512);
    assert_eq!(MAX_SEGMENT_BYTES, 32 * 1024 * 1024);
}

#[test]
fn keyframe_safe_snapshot_can_request_any_retained_duration() {
    let spool = filled(12);
    let plan = spool
        .worker
        .index()
        .snapshot_plan(ReplayDuration::Seconds15)
        .expect("snapshot plan");
    assert!(!plan.segments.is_empty());
    assert!(plan
        .segments
        .iter()
        .all(|segment| segment.start_timestamp_ns % 2_000_000_000 == 0));
    let early_long_clip = spool
        .worker
        .index()
        .snapshot_plan(ReplayDuration::Seconds900)
        .expect("save available history before the full duration exists");
    assert!(
        early_long_clip.available_duration_ns
            < u64::from(ReplayDuration::Seconds900.seconds()) * NANOSECONDS_PER_SECOND
    );
    assert!(!early_long_clip.segments.is_empty());
    let before_repeat = spool.worker.stats(0, 0);
    let repeated = spool
        .worker
        .index()
        .snapshot_plan(ReplayDuration::Seconds15)
        .expect("repeated save must not consume history");
    assert!(!repeated.segments.is_empty());
    assert_eq!(spool.worker.stats(0, 0), before_repeat);
}

#[test]
fn asynchronous_save_seals_and_includes_the_active_tail() {
    let mut spool = MemorySpool::new(SpoolIndex::new(), limits());
    assert!(spool.submit(&packet(0, true)));
    assert!(spool.submit(&packet(NANOSECONDS_PER_SECOND, false)));
    assert_eq!(spool.worker.stats(0, 0).active_segments, 0);

    spool.seal();
    let plan = spool
        .worker
        .index()
        .snapshot_plan(ReplayDuration::Seconds15)
        .expect("sealed tail is retained");
    assert_eq!(plan.segments.len(), 1);
    assert_eq!(plan.segments[0].start_timestamp_ns, 0);
    assert_eq!(
        plan.segments[0].end_timestamp_ns,
        2 * NANOSECONDS_PER_SECOND
    );
    let mut history = ring();
    assemble_snapshot(&spool.contents(&plan.segments), &mut history)
        .expect("active tail assembles");
    let times: Vec<u64> = history
        .packets()
        .iter()
        .map(|packet| packet.timestamp_ns())
        .collect();
    assert_eq!(times, vec![0, NANOSECONDS_PER_SECOND]);
    let clip = video_only_clip(&stream(), &history, 1 << 20).expect("clip");
    assert!(clip.len() > 4);

    assert!(spool.submit(&packet(2 * NANOSECONDS_PER_SECOND, false)));
    assert!(spool.submit(&packet(3 * NANOSECONDS_PER_SECOND, true)));
    assert!(spool.submit(&packet(5 * NANOSECONDS_PER_SECOND, true)));
    assert!(spool.worker.stats(0, 0).active_segments >= 2);
}

#[test]
fn sub_second_history_is_not_committed_as_a_replay_clip() {
    let mut spool = MemorySpool::new(SpoolIndex::new(), limits());
    assert!(spool.submit(&short_packet(0, true)));
    assert!(spool.submit(&short_packet(81_000_000, false)));
    assert!(spool.submit(&short_packet(147_000_000, false)));
    spool.seal();
    let error = spool
        .worker
        .index()
        .snapshot_plan(ReplayDuration::Seconds15)
        .expect_err("sub-second history must not start a clip save");
    assert!(error.is_insufficient_history());
    assert!(error.message().contains("just started"));
    assert_eq!(spool.worker.phase(), ReplaySpoolPhase::Running);
    assert!(!SpoolIndex::new()
        .snapshot_plan(ReplayDuration::Seconds15)
        .expect_err("nothing")
        .is_insufficient_history());
}

#[test]
fn reset_epoch_discards_completed_history_before_accepting_new_packets() {
    let mut spool = filled(5);
    assert!(spool.worker.stats(0, 0).active_segments >= 1);
    let (open, removed) = spool.worker.reset_epoch();
    assert!(open.is_some());
    assert_eq!(removed.len(), 2);
    assert_eq!(spool.worker.stats(0, 0).active_segments, 0);
    assert_eq!(spool.worker.stats(0, 0).buffered_duration_ns, 0);
    assert_eq!(spool.worker.stats(0, 0).accepted_packets, 0);
    assert!(spool
        .worker
        .index()
        .snapshot_plan(ReplayDuration::Seconds15)
        .is_err());

    assert!(spool.submit(&packet(0, false)));
    assert!(spool.submit(&packet(NANOSECONDS_PER_SECOND, true)));
    assert!(spool.submit(&packet(3 * NANOSECONDS_PER_SECOND, true)));
    assert!(spool.worker.stats(0, 0).active_segments >= 1);
    let plan = spool
        .worker
        .index()
        .snapshot_plan(ReplayDuration::Seconds15)
        .expect("new epoch history");
    assert_eq!(plan.segments[0].start_timestamp_ns, NANOSECONDS_PER_SECOND);
}

fn entry(name: &str, bytes: u64) -> SpoolEntry {
    SpoolEntry {
        name: Some(name.to_owned()),
        path: name.as_bytes().to_vec(),
        regular: true,
        bytes,
        header: b"RDNSEG01".to_vec(),
    }
}

#[test]
fn recovery_removes_partial_files_and_retains_only_exact_owned_segments() {
    let spool = filled(5);
    let mut entries: Vec<SpoolEntry> = spool
        .files
        .iter()
        .map(|(path, contents)| SpoolEntry {
            name: Some(String::from_utf8(path.clone()).expect("name")),
            path: path.clone(),
            regular: true,
            bytes: contents.len() as u64,
            header: contents[..8].to_vec(),
        })
        .collect();
    let owned = entries.len();
    entries.push(entry(".redunar-segment-dead.tmp", 7));
    entries.push(entry("user-file", 4));
    let (abandoned, recovered) = SpoolIndex::recover(&entries);
    let index = recovered.expect("recover spool");
    assert_eq!(abandoned, vec![owned]);
    assert!(index.recovered_segments() >= 1);
    assert_eq!(index.segments(), spool.worker.index().segments());
    assert_eq!(index.active_bytes(), spool.worker.index().active_bytes());
    assert_eq!(classify_entry("user-file"), SpoolEntryKind::Foreign);
}

#[test]
fn recovery_stops_at_a_damaged_segment() {
    let (abandoned, recovered) = SpoolIndex::recover(&[
        entry(".redunar-segment-dead.tmp", 7),
        entry(&segment_name(7, 2, 1), 100),
        entry(".redunar-segment-beef.tmp", 7),
    ]);
    assert_eq!(abandoned, vec![0]);
    assert_eq!(
        recovered.expect_err("reversed times").message(),
        "owned Replay segment is invalid"
    );
    let mut short = entry(&segment_name(7, 1, 2), 3);
    short.header = b"RDN".to_vec();
    assert_eq!(
        SpoolIndex::recover(&[short])
            .1
            .expect_err("three bytes")
            .message(),
        "could not read Replay segment: failed to fill whole buffer"
    );
    let mut other = entry(&segment_name(7, 1, 2), 100);
    other.header = b"RDNSEG02".to_vec();
    assert_eq!(
        SpoolIndex::recover(&[other])
            .1
            .expect_err("another version")
            .message(),
        "owned Replay segment header is invalid"
    );
}

#[test]
fn segment_names_and_contents_round_trip() {
    let name = segment_name(255, 16, 32);
    assert_eq!(
        name,
        "redunar-segment-00000000000000ff-0000000000000010-0000000000000020.rseg"
    );
    assert_eq!(parse_segment_name(&name), Some((255, 16, 32)));
    assert_eq!(parse_segment_name("redunar-segment-1-2-3.rseg"), Some((1, 2, 3)));
    assert_eq!(parse_segment_name("user-file"), None);
    assert_eq!(
        temporary_segment_name(255),
        ".redunar-segment-00000000000000ff.tmp"
    );
    let mut contents = b"RDNSEG01".to_vec();
    contents.extend(encode_record(&packet(3, true)));
    let mut history = ring();
    read_segment_packets(contents.len() as u64, &contents, &mut history).expect("segment");
    assert_eq!(history.packets()[0].bytes(), packet(3, true).bytes());
    assert!(read_segment_packets(7, &contents[..7], &mut ring()).is_err());
    assert!(assemble_snapshot(&[], &mut ring()).is_err());
}

#[test]
fn segments_end_at_gaps_and_overdue_keyframes() {
    let mut spool = MemorySpool::new(SpoolIndex::new(), limits());
    assert!(spool.submit(&packet(0, false)));
    assert_eq!(spool.worker.stats(0, 0).dropped_awaiting_keyframe, 1);
    assert_eq!(spool.worker.stats(0, 0).active_segments, 0);
    assert_eq!(spool.worker.stats(0, 0).accepted_packets, 0);
    assert!(spool.submit(&packet(1, true)));
    assert_eq!(spool.worker.stats(0, 0).accepted_packets, 1);
    assert!(spool.worker.observe_discontinuity(0).is_none());
    assert!(spool.worker.observe_discontinuity(1).is_some());
    assert!(spool.worker.current().is_none());
    assert!(spool.submit(&packet(1_000_000_000, true)));
    assert!(!spool.submit(&packet(5_000_000_000, false)));
    assert_eq!(spool.worker.phase(), ReplaySpoolPhase::Failed);
    let mut slow = SpoolWorker::new(SpoolIndex::new(), limits(), 0);
    assert!(!slow.conclude(&packet(0, true), false, MAX_WRITE_LATENCY_NS + 1));
    assert_eq!(slow.phase(), ReplaySpoolPhase::SlowStorage);
    assert_eq!(
        ReplaySpoolPhase::from_code(ReplaySpoolPhase::SlowStorage.code()),
        ReplaySpoolPhase::SlowStorage
    );
}

#[test]
fn a_full_queue_returns_the_packet_and_marks_a_gap() {
    let mut queue = SpoolQueue {
        queued_packets: 0,
        dropped_queue_full: 0,
        discontinuity: 0,
    };
    assert!(queue
        .try_submit(
            ReplaySpoolPhase::Running,
            packet(0, true),
            QueueOutcome::Queued
        )
        .is_ok());
    assert!(matches!(
        queue.try_submit(
            ReplaySpoolPhase::Running,
            packet(1, true),
            QueueOutcome::Full
        ),
        Err(ReplaySpoolSubmitError::QueueFull(back)) if back == packet(1, true)
    ));
    assert!(matches!(
        queue.try_submit(
            ReplaySpoolPhase::Failed,
            packet(2, true),
            QueueOutcome::Queued
        ),
        Err(ReplaySpoolSubmitError::NotRunning(_))
    ));
    assert_eq!(queue.queued_packets, 1);
    assert_eq!(queue.dropped_queue_full, 1);
    assert_eq!(queue.discontinuity, 1);
    queue.taken();
    assert_eq!(queue.queued_packets, 0);
}

#[test]
fn spool_markers_and_snapshot_files_are_exact() {
    assert!(validate_marker(true, b"redunar-replay-spool-v1\n").is_ok());
    assert!(validate_marker(false, b"redunar-replay-spool-v1\n").is_err());
    assert!(validate_marker(true, b"other").is_err());
    assert!(matches!(marker_plan(true, true), Ok(MarkerPlan::Validate)));
    assert!(matches!(marker_plan(false, false), Ok(MarkerPlan::Claim)));
    assert!(marker_plan(false, true).is_err());
    let segment = ReplaySpoolSegment {
        path: b"a".to_vec(),
        start_timestamp_ns: 0,
        end_timestamp_ns: 1,
        bytes: 10,
    };
    assert!(check_snapshot_segment(&segment, true, 10).is_ok());
    assert!(check_snapshot_segment(&segment, true, 11).is_err());
    assert!(check_snapshot_segment(&segment, false, 10).is_err());
}
