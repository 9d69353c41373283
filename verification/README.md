# umadev_agent

Verified decision logic of UmaDev's agent for opening pull requests and for
the runtime proof of a delivered project, written in Verus.

Layout:

- `src/pr.rs`: PR readiness from what `git`/`gh` printed, the branch plan
  (never committing onto the default branch), feature-branch names, the
  manual fallback recipe, the PR body and the proof-pack section.
- `src/runtime_proof.rs`: the runtime-proof record and its one-line summary,
  the run as a state machine (`RuntimeRun`: it names the next step, is told
  its outcome, and ends with an honest record), and its building blocks:
  command splitting, URL joining, route concretization, contract routes,
  curl status parsing, e2e detection and outcomes, output truncation, PATH
  lookups.
- `src/text.rs`: string helpers specified over `Seq<char>`.
- `src/json.rs`: the trusted serde_json call (keys of an object member).
- `app/`: the unverified edge: running `git`, `gh`, `curl`, the dev server
  and the e2e runner with tokio, reading the workspace, and writing the
  runtime-proof JSON with serde.
- `tests/`: tests of the library.

Each public function states its result exactly in `ensures`; the laws of the
library are public `law_*` proof functions next to the functions they relate.
