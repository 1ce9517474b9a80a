# chip8

A CHIP-8 machine written in Verus: the memory layout, the instruction
decoder, the semantics of every instruction, the 60 Hz timers and the
keypad are specified over a mathematical model of the 4 KiB memory and
proved correct.

- `src/` is the verified library (see the module list in `src/lib.rs`).
  Every public function carries a contract; `src/laws.rs` and the `lemma_*`
  proof functions next to their subjects state the properties that relate
  several operations (writes read back, calls return, drawing twice
  restores the screen, saved registers load back, timers lose no tick, ...).
- `app/` is the terminal front end: argument reading, file reading, the
  input thread, frame pacing and rendering with `ratatui`.
- `tests/` runs the library on concrete machines.

The library calls three things it cannot prove: the random byte of
`GetRand` (`rand::random`), the system clock (`SystemTime`), and decimal
parsing of a frame rate (`str::parse::<u32>`). Each sits behind a small
wrapper whose contract says what is assumed.
