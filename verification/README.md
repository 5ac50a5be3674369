# golem_runner

The decision-making core of the golem mobile UI test runner, verified with
Verus: the functions in `src/` carry `requires`/`ensures` contracts that
Verus proves, and the laws the library promises stand as public proof
functions beside the code they are about. The exception is the failure
barrier (`barrier`), whose recorded point is a shared atomic that any clone
may change: `new`, `report_failure` and `default` have no contract, the
queries are stated through the decisions they make on the value they read,
and the barrier's laws are laws of the model of the stored value.

## Layout

- `src/` — the verified library.
  - `text` — character helpers: decimal rendering, trimming, searching,
    ordering strings.
  - `accessibility`, `checks`, `color`, `annotate`, `audit` — audit levels;
    the tree checks (missing labels, duplicate labels, overlapping controls,
    occlusion cells); colour analysis of text boxes (background, ink colour,
    text band, cropping); marker placement; reading the audit record back
    out of an annotated PNG.
  - `capture` — screenshot, tree, trace and recording paths, and splicing
    `tEXt` metadata into a PNG (with its CRC-32).
  - `barrier` — the cross-device failure barrier.
  - `data_driven` — data rows, their labels (pairs in order of name) and the
    runs they expand to.
  - `dev_overlay` — recognising React Native error overlays in a tree.
  - `media` — recognising image and video files by their first bytes.
  - `interaction` — swipe and scroll directions, swipe and multi-touch
    gesture plans, nudging containers into view, finding the real switch
    inside a switch row.
  - `branch` — branch conditions and the walk that picks the first match.
  - `external` — HTTP, script, e-mail inbox and alert decisions, and the
    records the `run` and `await_email` steps save.
  - `apps`, `actions`, `cleanup`, `context` — app bundle resolution, the
    action keywords, the cleanup plan, and the per-step slots.
- `tests/` — the test suite, run against the compiled library.
- `app/` — file I/O, JSON records, running `run` scripts, and the step
  drivers (cleanup, branch walk, alerts, swipe, gesture, scroll) that take
  the device's operations as closures. The device driver, selector and
  scroll-loop code they are handed, and the HTTP and e-mail clients, are
  not part of this crate.
