# SysInfo Dashboard

A device-diagnostics dashboard for Android whose UI is drawn straight into the
`ANativeWindow` pixel buffer with a 5x8 bitmap font.

- `src/` is the library, verified with Verus: the report the dashboard shows (built from
  the text of `/proc` and `/sys`, the `Build` fields and the battery intent), the parsers
  behind it, exact formatting of sizes and temperatures, and the text renderer (layout,
  glyph painting, the copy into the window's byte buffer). Each public function states
  its result exactly in its `ensures`.
- `app/` is the Android side: the `android-activity` event loop, the JNI calls, the file
  and network reads, and locking the `NativeWindow`. It also embeds the font,
  `app/font_5x8.bin` (95 glyphs of 8 bytes, ASCII 32 to 126).
- `tests/` checks the library on concrete values, including against `std`'s float
  formatting and the string functions the parsers mirror.
