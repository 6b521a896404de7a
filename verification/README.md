# taiko_untitled

The core of a taiko drumming game, written in Verus and verified.

`src/` is the library:

- `tja`: the line grammar of TJA score files (header keys, score commands,
  note lines, branch conditions, the numbers they carry);
- `text_encoding`: accepting the bytes of a TJA file as text;
- `measure` and `branch_context`: closing a measure of a score, and the
  branch blocks whose later branches replay the tempo of the first one;
- `game_manager` and `game_manager::play`: judging hits against the notes,
  the judge counts, combo and gauge, branch points and branch events;
- `ring_buffer`, `value_with_update_time`, `utils`, `analyze`, `structs`:
  the small data structures and measurements the game is built on.

Times are carried by the library as order keys or left to its caller; the
arithmetic on times, tempos and scroll speeds happens in `app/`, a headless
program that reads a TJA file and lets the game's auto mode play it.

`tests/` exercises the library from outside.
