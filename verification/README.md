# drywet

A musician-facing audio runtime: Tone-style time strings, scientific pitch,
Synth / Drum / Sampler voices, named mix buses with insert chains, a callback
sink with a fixed mix-slot table, native device output, and an NDJSON stdio
engine.

## Layout

- `src/` — the verified library (Verus). Everything decided on integers,
  bytes and names lives here with its contract:
  - `pitch` — note names and MIDI numbers;
  - `time` — the grammar of time strings (note values, bars:beats:sixteenths);
  - `bus`, `insert` — the named-bus table and insert-chain limits;
  - `instrument` — voice accounting, drum names, nearest sampler key, the
    drums' noise generator;
  - `wav` — RIFF/WAVE parsing of 16-bit PCM and sample file names;
  - `stream` — latency, the in-process mock stream, and the mix-slot table
    that decides where queued audio goes and what the callback reads;
  - `device` — queue bookkeeping of the native device sink;
  - `transport` — the clock's lifecycle, tempo and time signature;
  - `event` — sequence slots and where each value falls;
  - `engine`, `message` — the stdio engine's verbs and JSON payloads.
- `app/` — the `drywet-engine` program and everything real-valued or I/O:
  sample rendering, time-to-seconds arithmetic, the buffer / callback /
  device sinks, file loading, and the stdio loop.
- `tests/` — tests of the library.
