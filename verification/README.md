# klipt

The logic behind Klipt, a desktop clip trimmer for game recordings, written
in Verus: the public functions of `src/` carry `requires` / `ensures`
contracts, and Verus checks every function there, except the few trusted
wrappers around `std::path`, `str`, hashing and `jpeg_encoder` (marked
`#[verifier::external_body]`), whose contracts it takes on trust.

- `src/naming.rs` — output names: sanitising user names, the naming-scheme
  template, collision-free candidates, rename targets.
- `src/media.rs`, `src/compress.rs`, `src/commands.rs` — the FFmpeg argument
  lists (Trim, Compress, GIF/WebP, audio, thumbnails, waveform, filmstrip),
  the NVENC-first / x264-fallback Compress plan, trash matching, `file://`
  URIs, the thumbnail batch plan.
- `src/probe.rs` — reading FFmpeg's `-i` banner and `-progress` lines.
- `src/sprite.rs` — assembling the filmstrip sprite and encoding it
  (`jpeg_encoder`).
- `src/cache.rs`, `src/order.rs` — render-cache eviction and stable sorting.
- `src/library.rs`, `src/watcher.rs` — media kinds, the folder walk's steps, the library scan, the
  watched roots.
- `src/window.rs` — borderless fullscreen geometry.
- `src/paths.rs`, `src/text.rs` — the `std::path` operations the logic uses,
  and string helpers.

`app/` is the Tauri application around the library: commands, the FFmpeg
sidecar, file and clipboard I/O, the filesystem watcher, libav decoding,
Win32 window calls and the floating-point time and bitrate arithmetic.
`tests/` exercises the library on concrete values.
