# telemetry_overlay

A pedal overlay for a racing game. The game shares a page of telemetry in memory;
the overlay samples it, keeps the latest thousand samples and plots the throttle
and the brake in a small window that stays on top.

The library under `src/` is verified with Verus:

- `telemetry`: the layout of the shared page and the inputs in percent
- `sampler`: what the sampling thread does next
- `app`: the window's state, the parts of a frame, dragging the window
- `widgets`: the resize grip and the close button
- `plot`: the two lines and how they are shown
- `geometry`, `color`: what shapes are made of
- `binary32`, `binary64`, `rounding`: floating-point numbers as bits, with the
  rounding that IEEE 754 asks for

`app/` opens the shared memory, runs the window and paints. It hands the library
the bits of the toolkit's numbers and performs what the library answers.
