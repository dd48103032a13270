# audio-visualiser

An audio-reactive flocking visualiser. Captured audio is analysed into
loudness, pitch, spectral and rhythm features, which steer a flock of boids
and colour it.

## Layout

- `src/` — the verified library (Verus):
  - `launch` — command-line options (`--demo`, `--input loopback|mic`,
    `--input=...`), with the exact error for every bad argument.
  - `audio::capture` — input modes, the stream settings they select, and
    which stream events stop capturing.
  - `audio::analysis` — overlapping analysis windows over the sample stream
    and bounded histories.
  - `audio` — reducing a batch of worker messages to what the display needs.
  - `control` — window titles and the response to each window event.
  - `render` — frame size and clearing a pixel frame.
  - `visualisation::render` — background modes and colour-palette tables.
  - `visualisation::simulation` — the flocking grid's cell and neighbour
    tables, population bookkeeping, beat-ripple selection and queue, and
    the xorshift generator.
- `tests/` — tests of the library.
- `app/` — the program: window and event loop, audio capture thread,
  floating-point analysis (FFT), colour science and boid physics.

Floating-point work (spectra, colours, positions and forces) lives in
`app/`; the integer and text logic it relies on is in the verified library.
