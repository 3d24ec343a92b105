# smaf_player

Playback of SMAF (`.mmf`) files, the ringtone and sound-effect format of Yamaha's
MA sound chips, as a library verified with Verus.

`parse_smaf` turns a file into a list of timed events: MIDI messages for the voices
of the handset's ROM, sampled waves decoded to 16-bit PCM, and notes of FM voices
that the file itself defines. One end marker closes the list when everything in it
has sounded.

* `src/` is the library. Every function states what it returns over mathematical
  views of its arguments; proof functions named `law_*` state what holds across
  functions. Bytes are read by the `smaf` crate; `src/reader.rs` holds all that is
  taken on trust from it, and `src/readable.rs` tells the files on which it would
  panic or never return.
* `tests/` runs the library, also against the `smaf` crate on random files.
* `app/` is the command-line player, with the floating-point synthesis of waves and
  FM notes. Usage: `smaf_player [--loop] FILE`.

`parse_smaf` requires a file that can be read and played to its end; of a file of
unknown origin `parse_smaf_checked` finds that out first.
