//! Verified core of the Redunar game companion.
pub mod background;
pub mod capture_session;
pub mod desktop_discovery;
pub mod environment;
pub mod game_process;
pub mod games;
pub mod hotkey_bindings;
pub mod hotkey_monitor;
pub mod hotkey_shortcuts;
pub mod launch;
pub mod launch_variables;
pub mod linux;
pub mod memory;
pub mod nvidia_nvml;
pub mod overlay;
pub mod path_map;
pub mod paths;
pub mod process_control;
pub mod replay_media;
pub mod replay_mp4;
pub mod replay_mp4_media;
pub mod replay_mp4_reader;
pub mod replay_nvidia_diagnostics;
pub mod replay_pipeline;
pub mod replay_preferences;
pub mod replay_ring;
pub mod replay_runtime;
pub mod replay_settings;
pub mod replay_spool;
pub mod replay_store;
pub mod replay_store_files;
pub mod replay_vulkan_video;
pub mod session_history;
pub mod steam_activation;
pub mod steam_discovery;
pub mod steam_launch_bridge;
pub mod steam_launch_options;
pub mod steam_wrapper;
pub mod text;
pub mod vdf;
pub mod wire;
