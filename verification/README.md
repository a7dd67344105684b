# gitspark

The verified core of GitSpark, a desktop Git client in the style of GitHub
Desktop. The library holds what the windows decide and compute, and Verus
proves the contracts of its functions. The few calls into std and syntect
that it makes (collecting characters, path splitting and comparison,
syntect's lookups) stand behind small wrappers in `text`, `paths` and
`syntax` whose contracts are taken on trust.

- `models` — the plain data the Git and AI backends hand over.
- `ui_state`, `domain_state` — navigation, filters, messages, repository,
  commit form, network and selection state, with their start values.
- `app` — the GitSpark window as a state machine: user actions and finished
  background jobs update the state and return the outside work (`AppEffect`)
  to run next; the recent-repository list and its laws.
- `top_app` — the single-window client (`RustTopApp`), whose actions are
  split around their synchronous Git, AI and settings work.
- `text_edit` — cursor movement and key handling in UTF-8 text fields, with
  the cursor kept on character boundaries.
- `diff_model` — unified diffs parsed into numbered lines, equal
  delete/add runs paired into modified lines with intra-line highlights.
- `diff_text` — the rows of the plain diff view, with `i32` line numbers.
- `labels`, `components` — the texts, tones and props of the views.
- `syntax` — the choice of highlighting syntax and diff theme from syntect.
- `text` — character-level helpers (lines, trimming, numbers).
- `paths` — repository paths compared by their components, as `Path` does.

`app/` is the runner around the library: it performs the file-system
effects, opens the folder dialog, hands the answers of background work back
to the app in batches, and keeps the syntect sets. The window
toolkit and the Git, AI and settings backends are not part of this crate.
