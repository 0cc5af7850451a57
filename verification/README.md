# clockguess

A terminal game for practising reading an analog clock, built around a
library verified with Verus.

- `src/` — the verified library:
  - `clock`: times of day, their distance on the twelve-hour dial, the
    `HH:MM:SS` texts and the parser for typed answers;
  - `difficulty`: how closely an answer must match;
  - `score`: points, the running tally of a session and the saved record;
  - `game`: what a typed line means, the messages shown, and the session
    state machine (when rounds are played, when a session ends and is saved);
  - `canvas`: a grid of styled characters with text, Bresenham lines and
    rendering;
  - `cli`, `duration`, `text`, `render`: options, time spans, character
    helpers and the renderer interface.
- `app/` — the program: command-line parsing, the terminal loop, the
  floating-point clock layout and the JSON score file.
- `tests/` — tests of the library.
