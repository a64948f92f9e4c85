# Redunar

Instant replay recording and in-game metrics for Steam games on Linux.

`src/` is the verified library: the rules, parsers, state machines and formats
of the recorder, with contracts that Verus proves.

- Recording: `replay_ring`, `replay_pipeline`, `replay_vulkan_video` and
  `replay_runtime` decide what an encoder's output becomes; `replay_spool` and
  `replay_store` keep it within bounds on disk, and `replay_store_files` shows
  what that does to a directory; `replay_mp4` writes it, and
  `replay_mp4_media` shows what a reader finds in it; `replay_preferences`
  holds the user's choices.
- Launching: `launch`, `steam_launch_bridge`, `steam_activation` and
  `steam_wrapper` bring a capture into one game's environment and no other.
- Finding games: `steam_discovery`, `steam_launch_options`,
  `desktop_discovery`, `game_process`, over the formats in `vdf` and `text`.
- The monitor: `linux`, `memory`, `nvidia_nvml`, `process_control`,
  `background`, `session_history`.
- Hotkeys: `hotkey_bindings` and `hotkey_monitor`.

`app/` is what stands around the library: files, sockets, processes, devices
and the clock. `tests/` runs the library on concrete values.

Paths and environment values are bytes, times are nanoseconds, and an error
has a `message` in place of a display.
