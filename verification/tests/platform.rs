use redunar::background::{
    observe_background_load, BackgroundCoordinator, BackgroundLoad, LoweredProcess,
    LOWERED_PRIORITY,
};
use redunar::game_process::{
    environment_value, inspect_process, numeric_pid, GameDetectionError, GameScan,
    LinuxGameProcessDetector, MAX_DETECTED_GAMES, MAX_ENVIRON_BYTES, MAX_PROC_ENTRIES_PER_SCAN,
};
use redunar::games::GameProcess;
use redunar::linux::{
    cpu_identity, discover_gpu_telemetry_paths, first_cpuinfo_value, gpu_model, gpu_snapshot,
    is_cpu_sensor, is_drm_card, is_gpu_sensor, is_supported_gpu_vendor, parse_cpu_times,
    read_trimmed, read_u64, shows_cards, CardFiles, LinuxCpuUtilizationSampler, LinuxHardwareProbe,
};
use redunar::memory::{parse_memory, read_memory, MemorySnapshot};
use redunar::nvidia_nvml::{
    device_name, is_nvidia, pci_slot_name, sample, MemoryReply, NvmlReplies,
};
use redunar::process_control::{
    apply_affinity, apply_priority, parse_affinity, parse_cpu_list, parse_priority, read_affinity,
    read_priority, AffinityMask, ProcessControlError,
};
use redunar::session_history::{
    append, load, save, SessionRecord, SessionTelemetrySample, MAX_RECORDS,
};

#[test]
fn reports_used_excluding_available_cache() {
    assert_eq!(
        parse_memory("MemTotal: 1000 kB\nMemFree: 10 kB\nMemAvailable: 400 kB\n"),
        Some(MemorySnapshot {
            total_bytes: 1_024_000,
            used_bytes: 614_400
        })
    );
}

#[test]
fn rejects_missing_malformed_incoherent_or_overflowed_readings() {
    for text in [
        "",
        "MemTotal: 100 kB",
        "MemTotal: 100 kB\nMemAvailable: 101 kB",
        "MemTotal: 0 kB\nMemAvailable: 0 kB",
        "MemTotal: 18446744073709551615 kB\nMemAvailable: 0 kB",
        "MemTotal: 100 MB\nMemAvailable: 10 kB",
        "MemTotal: 100 kB\nMemTotal: 100 kB\nMemAvailable: 10 kB",
    ] {
        assert_eq!(parse_memory(text), None, "{text}");
    }
}

#[test]
fn memory_reports_are_bounded_text_without_blank_lines() {
    assert_eq!(
        parse_memory("MemTotal: 100 kB\n\nMemAvailable: 10 kB\n"),
        None
    );
    assert!(read_memory(b"MemTotal: 2 kB\nMemAvailable: 1 kB\n").is_some());
    assert_eq!(read_memory(b"MemTotal: 2 kB\nMemAvailable: 1 kB\n\xff"), None);
    let mut large = b"MemTotal: 2 kB\nMemAvailable: 1 kB\n".to_vec();
    large.resize(65_537, b'x');
    assert_eq!(read_memory(&large), None);
}

#[test]
fn cpu_lists_read_ranges_and_single_processors() {
    assert_eq!(parse_cpu_list("0-2, 8"), Ok(vec![0, 1, 2, 8]));
    assert_eq!(parse_cpu_list("4096-8192").map(|cpus| cpus.len()), Ok(4097));
    for (list, error) in [
        ("", ProcessControlError::InvalidCpuIndex),
        ("x", ProcessControlError::InvalidCpuIndex),
        ("1-x", ProcessControlError::InvalidCpuRange),
        ("-1", ProcessControlError::InvalidCpuRange),
        ("3-1", ProcessControlError::UnboundedCpuRange),
        ("0-4097", ProcessControlError::UnboundedCpuRange),
    ] {
        assert_eq!(parse_cpu_list(list), Err(error), "{list}");
    }
}

#[test]
fn affinity_round_trips_through_the_tools_list() {
    let mask = AffinityMask {
        cpus: vec![0, 3, 17],
    };
    let list = apply_affinity(&mask).expect("list");
    assert_eq!(list, "0,3,17");
    assert_eq!(parse_cpu_list(&list), Ok(mask.cpus.clone()));
    assert_eq!(
        parse_affinity("pid 12's current affinity list: 0,3,17\n"),
        Ok(mask)
    );
    assert_eq!(
        apply_affinity(&AffinityMask { cpus: Vec::new() }),
        Err(ProcessControlError::EmptyAffinity)
    );
    assert_eq!(
        parse_affinity("0-3"),
        Err(ProcessControlError::InvalidAffinity)
    );
    assert_eq!(
        read_affinity(false, b"x: 1"),
        Err(ProcessControlError::AffinityUnreadable)
    );
    assert_eq!(
        read_affinity(true, b"pid \xff: 1-2"),
        Ok(AffinityMask { cpus: vec![1, 2] })
    );
}

#[test]
fn priorities_are_signed_and_bounded() {
    assert_eq!(parse_priority("  -20\n"), Some(-20));
    assert_eq!(parse_priority("+7"), Some(7));
    assert_eq!(parse_priority("-+7"), None);
    assert_eq!(parse_priority("-2147483648"), Some(i32::MIN));
    assert_eq!(parse_priority("2147483648"), None);
    assert_eq!(read_priority(true, b" 3 \n"), Ok(3));
    assert_eq!(
        read_priority(true, b"-"),
        Err(ProcessControlError::InvalidPriority)
    );
    assert_eq!(
        read_priority(false, b"3"),
        Err(ProcessControlError::PriorityUnreadable)
    );
    assert_eq!(apply_priority(-5), Ok(()));
    assert_eq!(
        apply_priority(6),
        Err(ProcessControlError::PriorityOutOfRange)
    );
    assert_eq!(
        ProcessControlError::PriorityOutOfRange.message(),
        "priority adjustment is outside the supported range"
    );
}

#[test]
fn background_load_counts_processes_and_names_interferers() {
    let entries = vec![
        ("12".to_owned(), Some("firefox\n".to_owned())),
        ("self".to_owned(), Some("firefox\n".to_owned())),
        ("9".to_owned(), Some("Chrome\n".to_owned())),
        ("10".to_owned(), Some("firefox\n".to_owned())),
        ("11".to_owned(), None),
        ("13".to_owned(), Some("bash\n".to_owned())),
        ("99999999999".to_owned(), Some("baloo_file".to_owned())),
    ];
    let load = observe_background_load(&entries);
    assert_eq!(
        load,
        BackgroundLoad {
            process_count: 6,
            known_interferers: vec![
                "Chrome".to_owned(),
                "baloo_file".to_owned(),
                "firefox".to_owned()
            ],
            known_pids: vec![
                (12, "firefox".to_owned()),
                (9, "Chrome".to_owned()),
                (10, "firefox".to_owned())
            ],
        }
    );
    let flood: Vec<_> = (0..40)
        .map(|pid| (format!("{pid}"), Some("chrome".to_owned())))
        .collect();
    assert_eq!(observe_background_load(&flood).known_pids.len(), 32);
}

#[test]
fn lowered_priorities_are_restored_once() {
    let mut coordinator = BackgroundCoordinator::default();
    coordinator.lower_known_processes(&[
        LoweredProcess {
            pid: 1,
            previous: Some(0),
            applied: true,
        },
        LoweredProcess {
            pid: 2,
            previous: None,
            applied: false,
        },
        LoweredProcess {
            pid: 3,
            previous: Some(-2),
            applied: false,
        },
        LoweredProcess {
            pid: 4,
            previous: Some(-3),
            applied: true,
        },
    ]);
    assert_eq!(coordinator.restore(), vec![(1, 0), (4, -3)]);
    assert!(coordinator.restore().is_empty());
    assert_eq!(LOWERED_PRIORITY, 5);
}

struct Process {
    pid: u32,
    comm: &'static [u8],
    executable: &'static [u8],
    environ: Vec<u8>,
}

fn detect(processes: Vec<Process>) -> Vec<GameProcess> {
    let mut scan = GameScan::new();
    for process in processes {
        if !scan.next_entry() {
            break;
        }
        if let Some(game) = inspect_process(
            process.pid,
            process.executable,
            process.comm,
            &process.environ,
        ) {
            scan.add(game);
        }
    }
    scan.into_games()
}

#[test]
fn detects_steam_game_and_reads_fallback_identifier() {
    assert_eq!(
        detect(vec![Process {
            pid: 812,
            comm: b"spacegame\n",
            executable: b"/games/spacegame",
            environ: b"PATH=/usr/bin\0SteamGameId=123456\0".to_vec(),
        }]),
        vec![GameProcess {
            pid: 812,
            comm: "spacegame".into(),
            executable: b"/games/spacegame".to_vec(),
            steam_app_id: Some(123_456),
            game_mode_active: false,
        }]
    );
}

#[test]
fn detects_explicit_non_steam_game_runtime_without_an_app_id() {
    let games = detect(vec![Process {
        pid: 900,
        comm: b"indie-game\n",
        executable: b"/opt/games/indie-game",
        environ: b"GAMEMODERUNEXEC=indie-game\0".to_vec(),
    }]);
    assert_eq!(games.len(), 1);
    assert_eq!(games[0].steam_app_id, None);
    assert!(games[0].game_mode_active);
}

#[test]
fn ignores_ordinary_processes_kernel_threads_and_redunar() {
    assert!(detect(vec![
        Process {
            pid: 10,
            comm: b"browser\n",
            executable: b"/usr/bin/browser",
            environ: b"PATH=/usr/bin\0".to_vec(),
        },
        Process {
            pid: 20,
            comm: b"redunar-tauri\n",
            executable: b"/usr/bin/redunar-tauri",
            environ: b"SteamAppId=42\0".to_vec(),
        },
        Process {
            pid: 21,
            comm: b"steamwebhelper\n",
            executable: b"/usr/lib/steam/steamwebhelper",
            environ: b"SteamAppId=42\0".to_vec(),
        },
        Process {
            pid: 22,
            comm: b"steam\n",
            executable: b"/usr/lib/steam/bin_steam.sh",
            environ: b"SteamAppId=42\0".to_vec(),
        },
    ])
    .is_empty());
}

#[test]
fn ignores_invalid_and_oversized_environment_data() {
    assert!(detect(vec![
        Process {
            pid: 40,
            comm: b"zero\n",
            executable: b"/games/zero",
            environ: b"SteamAppId=0\0".to_vec(),
        },
        Process {
            pid: 41,
            comm: b"text\n",
            executable: b"/games/text",
            environ: b"SteamAppId=abc\0".to_vec(),
        },
        Process {
            pid: 42,
            comm: b"large\n",
            executable: b"/games/large",
            environ: vec![b'x'; MAX_ENVIRON_BYTES + 1],
        },
    ])
    .is_empty());
}

#[test]
fn detection_result_is_bounded_under_process_flood() {
    let flood = (1..=(MAX_DETECTED_GAMES as u32 + 8))
        .map(|pid| Process {
            pid,
            comm: b"fixture-game\n",
            executable: b"/games/fixture-game",
            environ: b"GAMEMODERUNEXEC=fixture-game\0".to_vec(),
        })
        .collect();
    assert_eq!(detect(flood).len(), MAX_DETECTED_GAMES);
}

#[test]
fn missing_proc_root_is_reported() {
    let error = GameDetectionError::new(b"/fixture/missing\xff", "No such file or directory");
    assert_eq!(
        error.message(),
        "could not scan /fixture/missing\u{fffd}: No such file or directory"
    );
}

#[test]
fn games_come_out_in_the_order_of_their_identifiers() {
    let game = |pid| Process {
        pid,
        comm: b"game",
        executable: b"/games/game",
        environ: b"SteamAppId=+7\0".to_vec(),
    };
    let pids: Vec<u32> = detect(vec![game(30), game(4), game(100)])
        .iter()
        .map(|game| game.pid)
        .collect();
    assert_eq!(pids, vec![4, 30, 100]);
}

#[test]
fn process_entries_belong_to_the_user_and_scans_end() {
    let detector = LinuxGameProcessDetector::new(b"/proc".to_vec(), 1000);
    assert_eq!(detector.process_entry(b"17", 1000), Some(17));
    assert_eq!(detector.process_entry(b"17", 0), None);
    assert_eq!(detector.process_entry(b"self", 1000), None);
    assert_eq!(numeric_pid(b"4294967296"), None);
    assert_eq!(numeric_pid(b"\xff"), None);
    let mut scan = GameScan::new();
    for _ in 0..MAX_PROC_ENTRIES_PER_SCAN {
        assert!(scan.next_entry());
    }
    assert!(!scan.next_entry());
    assert_eq!(
        environment_value(b"A=1\0noequals\0B=2=3\0A=4", b"B"),
        Some(b"2=3".to_vec())
    );
    assert_eq!(environment_value(b"A=1\0A=4", b"A"), Some(b"1".to_vec()));
    assert_eq!(environment_value(b"A=1", b""), None);
}

const CPUINFO: &str = "processor : 0\nvendor_id : AuthenticAMD\nmodel name : AMD Ryzen Test CPU\n\nprocessor : 1\nvendor_id : AuthenticAMD\nmodel name : AMD Ryzen Test CPU\n";

fn card(vendor: &str, device: &str) -> CardFiles {
    CardFiles {
        card: "card1".to_owned(),
        vendor_id: Some(read_trimmed(vendor)),
        device_id: Some(read_trimmed(device)),
        subsystem_vendor_id: None,
        subsystem_device_id: None,
        driver_link: None,
        sensor_name: Some("amdgpu".to_owned()),
        vram_used_bytes: read_u64("12025908428\n"),
        vram_total_bytes: read_u64("17179869184\n"),
        performance_level: Some(read_trimmed("auto\n")),
    }
}

#[test]
fn detects_amd_cpu_and_gpu_from_fixture() {
    let cpu = cpu_identity(CPUINFO);
    assert_eq!(cpu.model, "AMD Ryzen Test CPU");
    assert_eq!(cpu.logical_cpus, 2);
    assert_eq!(cpu.vendor, "AuthenticAMD");
    assert!(is_cpu_sensor("k10temp"));
    assert!(is_cpu_sensor("zenpower"));
    assert!(!is_cpu_sensor("coretemp"));
    assert!(is_gpu_sensor("amdgpu"));

    let gpu = gpu_snapshot(card("0x1002\n", "0x73bf\n"), false).expect("AMD card");
    assert_eq!(gpu.model, "AMD Radeon Navi 21");
    assert_eq!(gpu.driver.as_deref(), Some("amdgpu"));
    assert_eq!(gpu.vram_used_bytes, Some(12_025_908_428));
    assert_eq!(gpu.vram_total_bytes, Some(17_179_869_184));
    assert_eq!(gpu.performance_level.as_deref(), Some("auto"));
}

#[test]
fn unknown_processors_keep_placeholders() {
    let cpu = cpu_identity("nothing here\n");
    assert_eq!(cpu.vendor, "Unknown");
    assert_eq!(cpu.model, "Unknown CPU");
    assert_eq!(cpu.logical_cpus, 0);
    assert_eq!(
        first_cpuinfo_value("a : b: c\na : d", "a"),
        Some("b: c".to_owned())
    );
}

#[test]
fn disambiguates_gigabyte_rx_6800_xt_from_shared_navi_21_device_id() {
    assert_eq!(
        gpu_model(Some("0x73bf"), Some("0x1458"), Some("0x2328")),
        "AMD Radeon RX 6800 XT"
    );
    assert_eq!(gpu_model(Some("0x73bf"), None, None), "AMD Radeon Navi 21");
}

#[test]
fn other_cards_are_named_by_their_number() {
    assert_eq!(gpu_model(Some("0x744c"), None, None), "AMD Radeon (0x744c)");
    assert_eq!(gpu_model(None, None, None), "AMD Radeon");
    let mut files = card("0x10DE", "0x2684");
    files.driver_link = Some(b"../../bus/pci/drivers/nvid\xffia".to_vec());
    assert!(gpu_snapshot(files.clone(), false).is_none());
    let gpu = gpu_snapshot(files, true).expect("beta card");
    assert_eq!(gpu.model, "NVIDIA GPU (0x2684)");
    assert_eq!(gpu.driver.as_deref(), Some("nvid\u{fffd}ia"));
    assert_eq!(gpu.vram_used_bytes, None);
    assert_eq!(gpu.performance_level, None);
}

#[test]
fn ignores_non_amd_drm_cards() {
    assert!(gpu_snapshot(card("0x8086\n", "0x1234\n"), false).is_none());
    assert_eq!(
        gpu_snapshot(card("0x1002\n", "0x73bf\n"), false)
            .expect("AMD card")
            .card,
        "card1"
    );
}

#[test]
fn ignores_unsupported_drm_cards() {
    assert!(!is_supported_gpu_vendor("0x8086"));
    assert!(is_supported_gpu_vendor("0x1002"));
    assert!(is_drm_card(b"card12", true));
    assert!(!is_drm_card(b"card12", false));
    assert!(!is_drm_card(b"card", true));
    assert!(!is_drm_card(b"card1-HDMI-A-1", true));
    assert!(!is_drm_card(b"renderD128", true));
}

#[test]
fn hybrid_machines_show_no_card_in_the_beta() {
    let amd = Some("0x1002".to_owned());
    let nvidia = Some("0x10de".to_owned());
    assert!(!shows_cards(&[amd.clone(), nvidia.clone()], true));
    assert!(shows_cards(&[amd.clone(), nvidia.clone()], false));
    assert!(shows_cards(&[nvidia], true));
    assert!(shows_cards(&[amd, None], true));
}

fn share(sample: Option<(u32, u32)>) -> Option<f64> {
    sample.map(|(busy, total)| f64::from(busy) * 100.0 / f64::from(total))
}

#[test]
fn cpu_sampler_calculates_utilization_from_aggregate_deltas() {
    let mut sampler = LinuxCpuUtilizationSampler::new();
    assert_eq!(
        sampler.sample("cpu  100 20 30 400 10 5 5 0 0 0\ncpu0 1 2 3 4\n"),
        None
    );
    let sample = sampler.sample("cpu  140 20 40 440 10 5 5 0 0 0\n");
    assert_eq!(sample, Some((50, 90)));
    assert_eq!(share(sample), Some(5000.0 / 90.0));
}

#[test]
fn cpu_sampler_recovers_after_counter_reset() {
    let mut sampler = LinuxCpuUtilizationSampler::new();
    assert_eq!(sampler.sample("cpu 100 0 0 100 0 0 0 0\n"), None);
    assert_eq!(sampler.sample("cpu 10 0 0 10 0 0 0 0\n"), None);
    assert_eq!(share(sampler.sample("cpu 20 0 0 20 0 0 0 0\n")), Some(50.0));
}

#[test]
fn cpu_sampler_rejects_partial_counter_reset() {
    let mut sampler = LinuxCpuUtilizationSampler::new();
    assert_eq!(sampler.sample("cpu 100 0 0 100 0 0 0 0\n"), None);
    assert_eq!(sampler.sample("cpu 20 0 0 300 0 0 0 0\n"), None);
    assert_eq!(
        share(sampler.sample("cpu 30 0 0 310 0 0 0 0\n")),
        Some(50.0)
    );
}

#[test]
fn cpu_sampler_ignores_malformed_reading_without_losing_baseline() {
    let mut sampler = LinuxCpuUtilizationSampler::new();
    assert_eq!(sampler.sample("cpu 100 0 0 100 0 0 0 0\n"), None);
    assert_eq!(sampler.sample("cpu invalid data\n"), None);
    assert_eq!(
        share(sampler.sample("cpu 130 0 0 110 0 0 0 0\n")),
        Some(75.0)
    );
}

#[test]
fn cpu_sampler_rejects_zero_delta_and_overflow() {
    assert!(parse_cpu_times("cpu 18446744073709551615 1 0 0\n").is_none());
    let mut sampler = LinuxCpuUtilizationSampler::new();
    assert_eq!(sampler.sample("cpu 10 0 0 10\n"), None);
    assert_eq!(sampler.sample("cpu 10 0 0 10\n"), None);
    assert_eq!(sampler.sample("cpu 4294967306 0 0 10\n"), None);
}

#[test]
fn telemetry_paths_are_those_of_the_card_and_its_sensor() {
    let paths = discover_gpu_telemetry_paths(
        b"/sys",
        "card1",
        Some(b"/sys/class/drm/card1/device/hwmon/hwmon2"),
    );
    assert_eq!(
        paths.temperature,
        Some(b"/sys/class/drm/card1/device/hwmon/hwmon2/temp1_input".to_vec())
    );
    assert_eq!(
        paths.utilization,
        b"/sys/class/drm/card1/device/gpu_busy_percent".to_vec()
    );
    assert_eq!(
        discover_gpu_telemetry_paths(b"/sys", "card1", None).power,
        None
    );
    let probe = LinuxHardwareProbe::new(b"/proc".to_vec(), b"/sys".to_vec());
    assert!(!probe.allow_nvidia_beta);
    let probe = probe.with_nvidia_beta_enabled(true);
    assert!(probe.allow_nvidia_beta);
    assert_eq!(probe.proc_path("meminfo"), b"/proc/meminfo".to_vec());
    assert_eq!(probe.sys_path("class/drm"), b"/sys/class/drm".to_vec());
}

#[test]
fn nvidia_readings_are_bounded() {
    let mut gpu = gpu_snapshot(card("0x10de", "0x2684"), true).expect("beta card");
    assert!(is_nvidia(&gpu));
    sample(
        &mut gpu,
        NvmlReplies {
            utilization: Some(100),
            temperature: Some(150),
            clock: Some(1),
            memory: MemoryReply::Read { total: 9, used: 9 },
            milliwatts: Some(7),
        },
    );
    assert_eq!(gpu.utilization_percent, Some(100));
    assert_eq!(gpu.temperature_celsius, Some(150));
    assert_eq!(gpu.clock_mhz, Some(1));
    assert_eq!(gpu.vram_used_bytes, Some(9));
    sample(
        &mut gpu,
        NvmlReplies {
            utilization: Some(101),
            temperature: Some(151),
            clock: Some(0),
            memory: MemoryReply::Missing,
            milliwatts: None,
        },
    );
    assert_eq!(gpu.utilization_percent, None);
    assert_eq!(gpu.temperature_celsius, None);
    assert_eq!(gpu.clock_mhz, None);
    assert_eq!(gpu.vram_total_bytes, Some(9));
    assert_eq!(gpu.power_milliwatts, None);
    sample(
        &mut gpu,
        NvmlReplies {
            utilization: None,
            temperature: None,
            clock: None,
            memory: MemoryReply::Read { total: 8, used: 9 },
            milliwatts: None,
        },
    );
    assert_eq!(gpu.vram_total_bytes, None);
}

#[test]
fn nvidia_names_and_addresses() {
    assert_eq!(
        device_name(b" GeForce \0rest"),
        Some("GeForce".to_owned())
    );
    assert_eq!(device_name(b"no end"), None);
    assert_eq!(device_name(b"  \0"), None);
    assert_eq!(device_name(b"\xff\0"), None);
    assert_eq!(
        pci_slot_name("DRIVER=nvidia\nPCI_SLOT_NAME=0000:0A:00.f\nPCI_SLOT_NAME=bad\n"),
        Some("0000:0A:00.f".to_owned())
    );
    assert_eq!(
        pci_slot_name("PCI_SLOT_NAME=bad\nPCI_SLOT_NAME=0000:01:00.0\n"),
        None
    );
    assert_eq!(pci_slot_name("DRIVER=nvidia\n"), None);
}

fn written(value: f64) -> Option<String> {
    Some(format!("{value:.4}"))
}

fn record(game: &str) -> SessionRecord {
    SessionRecord {
        id: 0,
        game: game.to_owned(),
        started_unix: 42,
        duration_seconds: 63,
        average_fps: written(144.0),
        one_percent_low_fps: written(90.0),
        point_one_percent_low_fps: None,
        frame_intervals_ns: vec![16_000_000, 17_000_000],
        timeline: vec![SessionTelemetrySample {
            elapsed_seconds: 12,
            fps: written(59.8),
            frame_time_ms: written(16.7),
            cpu_temperature_celsius: written(62.0),
            gpu_temperature_celsius: written(68.5),
            cpu_utilization_percent: written(31.0),
            gpu_utilization_percent: written(94.0),
        }],
    }
}

#[test]
fn round_trips_bounded_session_records() {
    let record = record("A game\twith\nnewlines");
    let journal = save(&append(Vec::new(), record.clone()));
    let loaded = load(&journal).unwrap();
    assert_eq!(loaded.len(), 1);
    assert_eq!(loaded[0].id, 1);
    assert_eq!(loaded[0].game, record.game);
    assert_eq!(loaded[0].frame_intervals_ns, record.frame_intervals_ns);
    assert_eq!(loaded[0].timeline, record.timeline);
    assert_eq!(loaded[0].average_fps, record.average_fps);
    assert_eq!(loaded[0].point_one_percent_low_fps, None);
}

#[test]
fn loads_legacy_records_without_timeline_samples() {
    let loaded = load(
        "redunar-session-history-v1\n1\tLegacy\t42\t60\t60.0000\t50.0000\t40.0000\t16666667\n",
    )
    .unwrap();
    assert_eq!(loaded.len(), 1);
    assert!(loaded[0].timeline.is_empty());
    assert_eq!(loaded[0].frame_intervals_ns, vec![16_666_667]);
}

#[test]
fn journals_are_bounded_and_pass_over_what_is_no_session() {
    let mut records = Vec::new();
    for index in 0..MAX_RECORDS + 3 {
        records = append(records, record(&format!("game {index}")));
    }
    assert_eq!(records.len(), MAX_RECORDS);
    assert_eq!(records[0].id, 4);
    assert_eq!(records[63].id, 67);
    assert_eq!(load(&save(&records)), Ok(records));
    assert_eq!(
        load("something else\n")
            .expect_err("no journal")
            .message(),
        "session history header is invalid"
    );
    assert!(load("").is_err());
    let loaded = load(
        "redunar-session-history-v1\nno session\n7\ta\\tb\\nc\t1\t2\t-\tx\t-\t1,no,2\t5,-,-,-,-,-,-;6;;7,1,2,3,4,5,6\n",
    )
    .unwrap();
    assert_eq!(loaded.len(), 1);
    assert_eq!(loaded[0].game, "a\tb\nc");
    assert_eq!(loaded[0].average_fps, None);
    assert_eq!(loaded[0].one_percent_low_fps, None);
    assert_eq!(loaded[0].frame_intervals_ns, vec![1, 2]);
    assert_eq!(loaded[0].timeline.len(), 2);
    assert_eq!(loaded[0].timeline[1].elapsed_seconds, 7);
    assert_eq!(loaded[0].timeline[1].gpu_utilization_percent, Some("6".to_owned()));
}

#[test]
fn names_with_a_backslash_come_back_doubled() {
    let journal = save(&[record("a\\b")]);
    assert_eq!(load(&journal).unwrap()[0].game, "a\\\\b");
}

#[test]
fn readings_are_the_texts_of_numbers() {
    let reading = |text: &str| {
        let journal = format!("redunar-session-history-v1\n1\tgame\t1\t2\t{text}\t-\t-\n");
        load(&journal).unwrap()[0].average_fps.clone()
    };
    for number in [
        "0", "60.0000", "-1.5", "+2", "5.", ".5", "1e3", "1.5E-7", "inf", "-Infinity", "NaN",
    ] {
        assert_eq!(reading(number), Some(number.to_owned()), "{number}");
        assert!(number.parse::<f64>().is_ok(), "{number}");
    }
    for other in ["-", "x", "", ".", "e3", "1e", "1e+", "+-1", "1.2.3", "0x1", "1_0", " 1", "infin"] {
        assert_eq!(reading(other), None, "{other}");
        assert!(other.parse::<f64>().is_err(), "{other}");
    }
}
