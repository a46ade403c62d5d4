# vnm_player

The playback logic of a desktop audio player, verified with Verus.

- `src/playlist.rs` — the play list: no path twice, a cursor that follows removals, loop modes.
- `src/nwa_dpcm.rs`, `src/nwa.rs` — the NWA format: header, offset table, block layout,
  uncompressed and DPCM-compressed blocks, seeking.
- `src/player.rs` — the player's state machine and the numbers it reports.
- `src/commands.rs`, `src/media.rs`, `src/cover.rs` — loop mode names, supported files,
  folder order, track durations, cover art and its cache.
- `src/error.rs`, `src/text.rs` — decoder errors and their messages.
- `app/` — the Tauri shell: commands, file and device I/O, the decoding thread, the
  floating-point resampler and output.
