# sidescreen

The verified core of SideScreenUtil's native edition, a Windows tool that
mirrors selected windows onto a secondary display through OLED-friendly
filters, hides itself when the pointer enters that display, and keeps the
picture moving and resting to avoid burn-in.

`src/` is the library, verified with Verus:

- `edges` — inner-contour detection (separable 3x3 minimum, threshold,
  inward-only widening) with its laws: equal to a direct pixel-by-pixel
  window scan, blank on uniform frames, never lighting a black pixel, never
  dimmed by a wider contour or brightened by a higher threshold, unchanged by
  a uniform brightness shift.
- `filter` — frame compaction (row copy without padding, nearest-pixel
  resampling) and the per-byte filter rules.
- `overlay` — fading, pointer suppression, layout editing, black rests.
- `i18n` — language choice and text lookup, falling back to the Simplified
  Chinese pack and then to the key.
- `settings` — preference ranges, defaults, the start-with-Windows command.
- `controls`, `panel` — control-panel rules and geometry.
- `platform`, `layout`, `grid`, `search`, `model` — UTF-16 buffers, display
  names, display and window ordering, source bounds, index arithmetic, first
  matches in sequences and the shared data types.

`app/` is the Windows program around it: Win32 and native-windows-gui
windows, Windows Graphics Capture and GDI capture threads, the settings file,
the registry, and the floating-point parts (layout rectangles, luminance,
brightness and hue tables, canvas motion).
