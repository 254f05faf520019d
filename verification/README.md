# braind

The autonomous behaviour layer of a small walking robot, verified with Verus.

- `src/`: the library. Senses, drives, scored behaviours and the arbiter over them; the maps of
  a maze and of a room; what is sent for a decision; the conversation with a simulated robot.
  Every function has a contract, and what holds of every run is stated in the `law_` functions.
- `tests/`: what the library does on given values.
- `app/`: the daemon around it. Sockets, threads, arguments, logging and everything in floating
  point.

Quantities are whole billionths (of a metre, a radian, a second). Sines, cosines and bearings
come from outside; a swinging joint is handed out as a base, an amplitude and a phase.
