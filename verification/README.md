# tuneterm

A terminal music player, and a server for the music it plays, with the logic of both
verified by Verus.

- `src/` is the library. Every function in it carries a contract that Verus proves:
  browsing, the queue and its shuffle, sessions, feeds, covers and their cache, addresses
  and remote files, the server's path checks and ratings, the command line, and where
  things go on the screen.
- `app/` is the program around it: the terminal, the disk, the network, the sound card
  and the threads. Floating point stays there too.
- `tests/` runs the library on concrete values, over a music folder and a server that
  exist only in memory.

The state of the player is `app::App`. A caller tells it what happened, carries out the
`Effect`s it leaves behind, and answers what it is `asking`. What holds of the player as
a whole is stated and proved in `src/app/laws.rs`; the other modules state their own laws
in functions whose names start with `law_`.

The outside crates the library calls are declared where they are used, each with what is
taken for granted of it: `quick_xml` in `src/feed.rs`, `image` in `src/cover.rs`,
`ratatui` in `src/ui.rs` and `tonic` in `src/remote.rs`.
