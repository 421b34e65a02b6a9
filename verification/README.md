# whisper_desktop

A local speech-to-text desktop application (Whisper through whisper.cpp,
audio decoding through Symphonia), split into a verified library and a thin
front end.

- `src/` — the library, verified with Verus:
  - `model.rs`: the model catalog, lookup by id, file names and download
    addresses, the progress bookkeeping of a streamed download, the model list
    shown to the user, and error messages.
  - `audio.rs`: the choice of the track to decode, the decisions of the
    decoding loop, the interleaved layout of decoded channels, error messages.
  - `transcribe.rs`: assembly of a transcript from recognised segments, the
    recogniser's language and thread settings, error messages.
  - `text.rs`: Unicode white space, trimming, string comparison.
- `app/` — the Tauri commands, file and network I/O, the calls into
  Symphonia, whisper-rs, reqwest and tokio, and the floating-point sample
  processing (down-mixing and resampling).
- `tests/` — tests of the library on concrete values.
