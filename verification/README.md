# simple_dub

The decision logic of a single-voice dubbing tool for MKV files, written in
Verus with its behaviour stated as contracts and proved.

Layout:

- `src/text.rs` — character-level helpers (trimming, searching, splitting,
  decimal formatting and parsing) with their specifications.
- `src/subtitles.rs` — reading and writing SRT; `src/srt_laws.rs` proves that
  a written document reads back as the same cues, renumbered;
  `src/srt_normalization.rs` proves that a leading byte-order mark and
  `\r\n` or `\r` line endings do not change what a document reads as.
- `src/commands.rs` — arguments of `whisper.cpp`, the Silero worker and the
  `ffmpeg` mux.
- `src/media.rs`, `src/pipeline.rs` — normalising an `ffprobe` report and
  choosing the processing route.
- `src/tts.rs` — the TTS engines, their fixed parameters and runtime layout,
  joined with the platform's path separator.
- `src/translation.rs` — the retry and fallback policy of translation,
  specified as a state machine over the calls made.
- `src/dubbing.rs`, `src/runtime.rs` — job stages and progress, reading tool
  output, merging a translation, the installer's plan and report.
- `src/settings.rs` — the OpenRouter key's format and its credential store;
  `src/credential_entry.rs` — the store entry, which records the service and
  account it was opened for, and a receipt for each key handed to it.
- `src/cache.rs`, `src/cache_laws.rs` — the job key (JSON text, SHA-256, hex)
  and the proof that the JSON text determines every input.
- `src/smoke.rs` — the headless run's command line.
- `app/` — the program around the library: processes, files, HTTP, audio
  files, floating-point loudness arithmetic and JSON (de)serialisation.
