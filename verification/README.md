# Hover Train

A small multiplayer game: players steer hovering trains, collect items to make
them longer, and cut each other off. Whoever runs into the train of another
dies.

This crate is the part of the game that can be proved: the simulation that a
server runs, and the rules by which a client predicts, corrects and draws it.
The contracts are proved with Verus.

## Layout

- `src/binary32/` single precision arithmetic on bit patterns, rounded to
  nearest, with the value of every result stated exactly
- `src/world.rs` the state of the world and the messages
- `src/rules.rs` moving, collecting and crashing, one player at a time
- `src/sim.rs` the simulation, tick by tick
- `src/laws.rs` what holds of the simulation as a whole
- `src/history.rs` what holds of every world that the simulation can reach
- `src/client/` the client: its session with the server, timers, pings, the
  loading screen, prediction, correction, what is shown, the trailers, the
  camera, the ground, and which server to connect to
- `src/client/laws.rs`, `src/client/history.rs` what holds of the client as a
  whole, and over any number of frames and messages
- `src/uuids.rs` fresh ids
- `tests/` the library against concrete values, hardware floats and the engine
- `app/` the client program: windows, sockets and JSON

What the library cannot compute itself, sines, square roots, exponentials,
rotations, random numbers and clocks, is handed to it as a function; each
contract says of which value it was asked and what became of the answer.

## Playing

- The default server is `ws://127.0.0.1:8080/ws`. A native client reads another
  one from `SERVER_WS_URL`; on the web, pass `?server=ws://host:port/ws`. A page
  from another host connects to port 4001 of that host.
- The main player turns left with A and right with D, the second one with the
  left and right arrows. Without any of these a train goes straight.
- To open a window, build `app/` with a windowing backend of the engine, that
  is with the feature `bevy_winit` of `bevy` (and `x11` or `wayland` on Linux).
