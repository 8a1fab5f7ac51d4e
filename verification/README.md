# alyze

Word segmentation after Unicode Standard Annex #29, written in Verus: what the tokenizers report is
stated in contracts and proved.

- `uax29::word::tokenize` runs an automaton character by character.
- `uax29::word::tokenize_ascii` decides ASCII text from four neighbouring class bytes, without the
  automaton.
- `uax29::word::tokenize_windowed` decides whole windows of ASCII at once and runs the automaton in
  between; `tokenize_windowed_with` lets the caller choose what decides the windows (`Scalar`, `Neon`
  or `Neon32`).

All of them call `on_breakpoint` with each boundary, and with the properties of the token that ends
there, until it returns `false`. What is reported of a text is `model::text_breaks` of it, whose
boundaries are given by the rules of the standard, `rules::uax29_boundary`, without exception. Each
tokenizer has a variant that reports to a `Listener` (`tokenize_to`, `tokenize_ascii_to`,
`tokenize_windowed_to`): their contracts say exactly which reports are made. A callback need take no
more than the breakpoints of the text, and is called with nothing else.

| Module | Contents |
| --- | --- |
| `token` | options, token properties |
| `properties` | the `Word_Break` property, word-like characters; character data comes from `icu_properties` |
| `transitions` | the automaton's states and table |
| `rules` | the rules of the standard |
| `model` | what is reported, as mathematics |
| `automaton` | the automaton as mathematics, and that it follows the rules |
| `listener` | those who hear of boundaries: callbacks and lists |
| `text` | characters and bytes of a text |
| `dfa` | `tokenize` |
| `ascii`, `class`, `ascii_tokenizer` | the rules that apply to ASCII, class bytes, `tokenize_ascii` |
| `window`, `neon`, `simd`, `windowed` | window kernels, byte vectors, `tokenize_windowed` |
| `ascii_window` | decisions for single windows of sixteen bytes |
| `tally` | token counts |
| `laws` | what holds of the boundaries of every text |

`app/` is a small program that counts the tokens of a file.
