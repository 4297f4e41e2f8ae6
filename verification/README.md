# gochu-core

A Vietnamese Telex input engine, verified with Verus.

Typing `Vieejt` gives `Việt`: vowel modifier keys (`aa` → â, `aw` → ă,
`ee` → ê, `oo` → ô, `ow` → ơ, `uw` → ư, `dd` → đ), tone keys (`s`, `f`,
`r`, `x`, `j`, and `z` to remove), placed on the right vowel of the word.

## Layout

- `src/` — the verified library.
  - `tone.rs`: the tone table and the tone operations on one character.
  - `vowel.rs`: vowels, vowel modification, and where a tone goes in a word.
  - `transform.rs`: what one key does to the word being composed, and the
    replay of a sequence of keys.
  - `engine.rs`: `TelexEngine`, the composing state; its invariant is that
    the displayed word is the replay of the raw keys typed for it (on the
    word that Backspace last had to rebuild, if any), and Backspace deletes
    exactly one displayed character.
  - `frontend.rs`: the key-event decisions of the IBus and fcitx5 front ends.
  - `bus.rs`: reading the IBus daemon address from its bus files.
  - `release.rs`: reading and bumping crate versions, the web demo's
    version file, and the release command line.
  - `ascii.rs`, `lines.rs`, `text.rs`: character, line and string helpers.
- `tests/` — the test suite.
- `app/` — the programs around the library: the IBus engine over D-Bus
  (`--ibus`), the release automation (`release <VERSION>`), the fcitx5
  C interface and the WebAssembly binding.
