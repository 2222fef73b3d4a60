# clipit

Clipboard history for the COSMIC panel, as a verified library plus the
applet around it.

- `src/history.rs` — entries, content-hash ids (FNV-1a, 16 hex digits), and
  the newest-first history: recording with dedupe and pin carry-over, delete
  and undo, pins, clear, size limit, expiry, display order, repair of a
  loaded file, and payload paths that stay inside the images directory.
- `src/clipboard.rs` — clipboard content (text with its optional HTML form,
  images in PNG, JPEG, GIF, WebP or BMP named by their signature bytes), the
  image probe order, what a read yields, and the watcher's baseline/change
  decision.
- `src/app.rs` — the applet state and `App::update_at`, which maps each
  message to the next state and the work to do (popup, clipboard copy,
  saving, settings, export).
- `src/text.rs` — string facts the rest needs (trim, substring, lower case,
  UTF-8 decoding, hex and decimal digits).
- `src/laws.rs` — properties that span operations (single copy per id, pins
  survive clear/trim/expiry, delete then undo, own copies not recorded,
  ids stay unique, navigation stays on a visible row).
- `app/` — the COSMIC applet, Wayland clipboard I/O, files, D-Bus and i18n.
