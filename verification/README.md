# animato

Verified building blocks of an animation toolkit, written in Verus.

`src/` is the verified library:

- `recorder` — recording scalar samples per label, kept sorted by time
  (times and values are held as IEEE bit patterns); binary export and import
  (`binary_format`); JSON export and import of labels and number texts
  (`json_format`). Round trips of both formats are proved.
- `svg` — SVG path `d` attribute parsing into commands whose coordinates are
  spans of number text, plain or relative to earlier coordinates.
- `keyed_list` — reconciliation of keyed list rows with exit transitions.
- `easing` — easing kinds, their canonical names and GPU shader numbers;
  `easing_parse` — reading easings written as text.
- `timeline_at` — reading timeline positions written as text.
- `hex_color` — reading `#rgb` / `#rrggbb` colors.
- `gpu` — backend selection of a tween batch (GPU or CPU fallback).
- `css` — inline style text assembled from property values written as text.
- `color`, `gesture`, `decompose`, `script_api` — small shared types and helpers.

`app/` holds the floating-point glue around the library (not the toolkit's
tweens, springs, physics, paths or GPU batch, which are float code outside
this crate): converting samples to and from bits,
fixed-point rounding for JSON, replay interpolation, evaluating SVG
coordinates, writing style numbers, color blending through `palette`, and
hashing DOM keys, and reading easing arguments, timeline times and
color channels as numbers.

`tests/` exercises the library from outside.
