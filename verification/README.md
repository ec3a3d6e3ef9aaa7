# bidrum

Bidrum is a rhythm game played on a janggu (Korean drum) controller or on
the keyboard. This crate is its verified core, written in Verus:

- `janggu`, `controller`, `controller_wrapper`, `hat`: the input state of the
  two sticks, its one-byte encoding, the keyboard and serial coin and janggu
  devices, and the Bluetooth hat's spinning state.
- `song`, `fraction`: songs, charts and notes; the exact position of a note
  in beats and its timing in milliseconds, computed with `num_rational`.
- `game_player`: judging the notes against the input (accuracy, score,
  combo, health), hat notes, the accuracy shown on screen, the combo sound.
- `screen`: the decisions of the game's screens (song menu, credit line,
  tutorial question, title screen).
- `recorder`: recording a chart from the hits of a player.

`app/` holds the input/output around it: command-line options, the song
directory and its JSON files, the device threads and the Bluetooth listener.
