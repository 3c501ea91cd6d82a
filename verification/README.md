# pattrns

Musical building blocks of a pattern based music sequence generator, written in Verus:
every function of the library carries a contract that Verus proves.

## Layout

- `src/note.rs`, `src/midi.rs`: notes in two numberings (C0 = 0, and MIDI with C-1 = 0),
  conversions from and to numbers and text, with the text round trip proved.
- `src/note/chord.rs`: chords from interval lists or from a table of named chords; the
  chord names are sorted by a verified insertion sort.
- `src/scale.rs`: scales of a known or custom mode: their steps and notes, chords built on
  scale degrees, and transposition of notes into a scale.
- `src/rhythm/euclidean.rs`, `src/pattern/euclidean.rs`: Euclidean rhythms (Bjorklund's
  algorithm) with their rotation laws.
- `src/tidal/pitch.rs`: pitches of the mini-notation.
- `src/tidal/cycle.rs`: a parser of the tidal cycles mini-notation into a tree of steps,
  with the grammar written as spec functions and the parser proved to follow it; repeats,
  replicates, weights, choices, stacks and polymeter counts are resolved as the tree is
  built; target words (`v.5`, `#3`) and assignments (`v=[..]`, `#=[..]`) are read as
  targets; `Cycle` holds a parsed text, its seed and the number of the cycle that plays
  next, and draws its random choices from a `rand_xoshiro` generator seeded by the seed
  plus the cycle's number.
- `src/tidal/output.rs`: the events that a step tree plays in one cycle (subdivisions,
  alternations, stacks, choices, euclidean rhythms, speed factors and polymeter counts,
  also made of several steps, target expressions, degrading), their spans exact fractions
  of the cycle, with holds and rests merged; choices and degrading go by the draws handed
  in.
- `src/phrase.rs`, `src/player.rs`: the choice of a phrase's next due event, and the sample
  player's decision for a voice's note event.
- `src/events/`, `src/value/`: event streams (fixed, cycling, mapped, with mapped notes,
  and over a plain iterator), generic over the event and note types; fixed streams turn
  into mapped ones.
- `src/text.rs`: character level helpers (decimal numbers, ASCII case folding).
- `src/time.rs`, `src/parameter.rs`, `src/pattern/empty.rs`,
  `src/rhythm/empty.rs`: small plain data types.
- `app/`: what holds floating point numbers (time bases, pulses, input parameters) and the
  conversion from the `rust-music-theory` crate's notes.
- `tests/`: tests of the library on concrete values.
