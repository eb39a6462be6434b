# ghostscribe-client

A push-to-talk dictation client: hold a trigger, speak, release; the take is
downmixed to mono, resampled to 16 kHz, encoded as FLAC or WAV, uploaded to a
transcription server, and the transcript is pasted into the focused window.

The decisions and data handling are a Verus-verified library (`src/`); the
program around it (`app/`) does the I/O: microphone capture, the keyboard
hook, HTTP, the clipboard, key injection, the tray icon and files.

## Layout

- `src/config.rs` – defaults, overlaying a parsed `config.toml`, the search
  order, the request URL, and the hot/cold classification of changed keys.
- `src/ptt.rs` – the push-to-talk state machine shared by both hooks.
- `src/hotkey.rs` – Windows trigger syntax (virtual-key codes, mouse
  buttons) and the keyboard/mouse hook decisions.
- `src/linux_hotkey.rs` – X11 trigger syntax (keys with any number of
  modifiers, mouse buttons) and the key/mouse hook decisions.
- `src/audio.rs` – the capture buffer, downmix, linear resampling, device
  selection, WAV (hound) and FLAC (flacenc) encoding.
- `src/upload.rs` – multipart body, request headers, HTTP error text, and
  reading the server's JSON reply.
- `src/watcher.rs` – what each poll of the config file reports.
- `src/client.rs` – "do it now", what to paste, banner, arguments and launch
  mode, and the tray session's reactions to events.
- `src/paste.rs` – terminal detection and the paste/Enter key strokes.
- `src/tray.rs` – tray states, tooltips, the drawn icon and menu IDs.
- `src/text.rs` – character-level helpers used by the parsers.
- `tests/` – tests of the library.
- `app/` – the executable.
