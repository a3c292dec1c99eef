# apex_oled

Drives the 128x40 monochrome OLED of SteelSeries Apex keyboards on Linux: a clock, the
weather, system load and an audio spectrum, one page at a time, blanked while the user is
idle and nudged by a pixel every minute against burn-in.

- `src/` is the verified library. `frame` is the keyboard's report format and every
  pixel operation on it; `draw` fills and outlines rectangles and overlays what
  embedded-graphics and u8g2-fonts rasterise; `pages` lays out the four pages; `text`,
  `stats` and `idle` read /proc, the environment and the compositor's announcements;
  `control` holds the decisions of the render loop; `cava` those about the visualiser;
  `weather` maps weather codes to icons and labels and schedules the forecast fetches.
- `app/` is the program: the device, signals, threads, the Wayland connection, the
  weather download and the floating-point numbers the pages show.
- `tests/` exercises the library.
