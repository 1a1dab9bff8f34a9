# corescribe

Local speech-to-text front end around whisper.cpp. The library in `src/` is
verified with Verus; `app/` is the desktop program (egui window, file and
network I/O, audio decoding and resampling) built on it.

- `text` — string primitives with their specifications: white space, trimming,
  line splitting, prefix/suffix/substring tests, decimal formatting.
- `transcript` — hiding timestamp lines of a transcript, classifying error
  messages for the error dialog.
- `updater` — version parsing and comparison, reading the release feed,
  deciding whether to offer an update.
- `inference` — the model catalogue and the decisions of a whisper.cpp run.
- `audio` — which WAV files and sample widths are accepted, and which
  conversion steps audio needs.
- `session` — the state machine of the window: transcription stages, result
  handling, dialogs, update status.
