# whatdidisay

The verified core of WhatdidIsay, a MicYou DSP plugin that transcribes the
microphone offline and keeps daily text records.

- `src/ring.rs` — the byte ring between the host's audio callback and the
  recognition worker (FIFO, all-or-nothing writes and reads).
- `src/reply.rs` — host replies: lossy UTF-8 decoding, unquoting of
  configuration values, numbers picked from the audio-state JSON.
- `src/config.rs` — configuration and lifecycle decisions: the models are
  loaded from launch on in MicYou Start mode and only while a device is
  connected in Device Connect mode; model paths under the plugin directory.
- `src/audio.rs` — sample words from bytes, whole-frame grouping for
  downsampling, detector windows, the worker's loop step.
- `src/clock.rs` — local time stamps of speech segments and their rendering
  as `YYYYMMDD` (day file) and `HH:MM` (minute header).
- `src/transcript.rs` — trimming and the record writer (`YYYYMMDD.txt`,
  `HH:MM` headers, `\t<sec> <text>` lines).
- `src/broadcast.rs` — the `WDIS` broadcast message (encode, decode, span).
- `app/lib.rs` — the C ABI, threads, sherpa-onnx models, files and logging.
