# nuko

The core of ぬこIME, a Japanese input method, written in Verus: the
functions of the library carry `requires` / `ensures` contracts that Verus
proves. What is trusted without proof is small and all of std: three
wrappers around the system clock (`SystemTime::now`, `duration_since`,
`Duration::as_secs`, with no `ensures`), the specifications of `String::push`
and `char::from_u32`, and the declarations of `SystemTime`,
`SystemTimeError`, `Instant` and `io::Error`.

Not part of this crate: the macOS Input Method Kit layer (drawing, the
client calls, the panels) and the optional statistical conversion backend;
the library decides, the platform layer performs.

## Layout

- `src/` — the verified library.
  - `romaji`, `mozc_table`, `kana`: romaji to kana conversion over the Mozc
    style table; hiragana, katakana and half-width katakana.
  - `candidate`, `segment`, `extend_clause`, `context`: candidates and their
    ordering, segmented conversions, clause extension, conversion context.
  - `system_dict`, `user_dict`, `dictionary`: the built-in dictionary, the
    user dictionary and their combined lookup.
  - `frequency`, `learning`, `observation`, `correction`: frequency learning,
    the observation log entries and the extraction of correction preferences.
  - `engine`: conversion and prediction.
  - `session`, `keys`, `panel`, `candidate_window`: the input session (what
    typing, commands, space, backspace and focus shifts do), the candidate
    panel text and the paged candidate window.
  - `config`, `settings`, `ime`: settings, the settings screen state and the
    registered input method.
  - `clock`, `error`, `text`: the system clock, errors, string helpers.
- `tests/` — tests of the library.
- `app/` — the command line tool (conversion, learning status, the user
  dictionary tool and a benchmark): argument handling, reading and writing
  the settings, dictionary, learning and observation files, timing, printing.

Verify with Verus on `src/lib.rs`; the tests and `app/` build with Cargo.
