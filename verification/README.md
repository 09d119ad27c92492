# seshd

The room daemon for a living-room media box. It keeps an append-only event
log of what happens in the room, derives every view from that log (who is
here, what is queued, what is playing), launches one app at a time, keeps
the speaker in step with the shared music queue, and lets phones join by
scanning a QR code.

## Layout

- `src/` is the library, written in Verus. Every rule the daemon follows is
  here with its contract, and the properties that span operations are
  stated and proved as proof functions beside the code they are about:
  - `event`, `json`, `record`: events, their payloads, and where they are
    appended.
  - `projection`, `projections`: the views folded from the log (roster,
    music queue), and the fact that catching up is rebuilding.
  - `veto`, `conductor`: when a vote skips a track, and what the conductor
    does about the speaker on each pass.
  - `presence`: the heartbeat tracker, the signal names, fusing several
    signals into one answer, and the Bluetooth watch.
  - `join`, `people`, `api`: join codes, person ids, and what each HTTP
    endpoint accepts and records.
  - `launcher`, `reconcile`, `config`: one app at a time, closing launches a
    restart left open, and the app registry.
  - `player`, `audio`, `clock`: the music source's answers, the speaker's
    comings and goings, and trusting the wall clock.
  - `text`, `strmap`, `strset`, `seqs`: strings, string-keyed maps and sets,
    and facts about sequences that the rest leans on.
- `app/` is the executable around it: the SQLite store, the HTTP and
  WebSocket server, the Spotify client, process control, and the loops that
  run the library's decisions against the real world.
- `tests/` runs the library on concrete cases.
