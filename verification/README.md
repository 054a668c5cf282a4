# kaku

The decision-making core of the Kaku terminal, written in Verus: every
function in `src/` carries a contract over a mathematical model (`Seq`,
`Set`, `Map`, `int`) and is proved against it. Files, processes, the network
and the GUI stay outside, in `app/`, which hands the library plain values and
acts on what it returns.

## Layout

- `src/text.rs`, `src/order.rs`, `src/width.rs`: characters, lexicographic
  order, grapheme clusters and display width shared by the other modules.
- `src/pane_encoding.rs`: the streaming encoder and decoder between a pane's
  legacy encoding (GBK, Big5, Shift-JIS, ...) and UTF-8 that lets escape
  sequences through untouched and buffers split characters.
- `src/proxy.rs`: reading `scutil --proxy` output into a proxy URL and the
  `NO_PROXY` exception list.
- `src/session.rs`: the "pristine / dirty" bookkeeping of session restore,
  logically closed windows, and which snapshots are worth writing or reading.
- `src/update.rs`: version comparison and the scheduling of update checks.
- `src/soul.rs`: the user's identity files (paths, schema migration, stubs,
  capped loading, parsing the onboarding answer).
- `src/approval.rs`: the system prompt and the messages that carry terminal
  context to the model as untrusted data.
- `src/markdown.rs`, `src/syntax.rs`, `src/layout.rs`, `src/input.rs`: the
  chat overlay: inline markup, blocks and tables, word wrapping (a word
  wider than the line keeps a line of its own), highlighted code, the input
  line, keys, mouse selection.
- `src/tools.rs`, `src/paths.rs`, `src/search.rs`: what the AI tools decide
  and report: path resolution and the protected locations, result budgets and
  truncation, search commands and reports, the file tree walk (as a state
  machine fed by the caller), project summaries, web search requests and
  replies.
- `app/`: the I/O around the library (files, processes, HTTP, the global
  session state), compiled against it but not verified.
- `tests/`: tests on concrete values, run against the compiled library.

## Laws

Besides the contracts of each function, `src/` proves properties that span
functions, as public proof functions named `law_*`: for instance that
inserting a character and deleting it again restores the input line, that a
nested restore leaves the session as the outermost one decides, that escape
sequences pass through the pane codecs whole even when split across reads,
that word wrapping loses no visible text, and that version order is
antisymmetric and transitive.

## Trusted boundary

Calls into `encoding_rs`, `unicode-segmentation`, `termwiz`, `syntect`,
`serde_json` and a few `std` functions go through small
`#[verifier::external_body]` wrappers whose doc comments say what their
contracts claim. Where an outside result takes pages to describe (an
encoding table, grapheme boundaries, a highlighting), the contract names it
with an uninterpreted spec function and the library's own contracts speak of
that name.
