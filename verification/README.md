# codexferry

A local router that lets Codex, which speaks the Responses API, use upstreams
that speak Chat Completions. It converts requests and answers, takes leaked
markup out of answers, writes the model catalog that Codex reads, and checks an
installation.

The library under `src/` does all of this on plain values and is verified with
Verus. What reads files, runs processes or talks to the network is under `app/`.

| Module | What it does |
| --- | --- |
| `json`, `sse`, `text`, `order`, `ids` | JSON values, events, texts, ordered listings, ids |
| `wire` | the two wire formats |
| `normalize` | names of namespaced tools |
| `convert` | requests, answers, and the replay of stored turns |
| `heal` | leaked tool calls, thinking markup, fragmented messages |
| `config`, `mode`, `catalog` | configuration, how Codex is wired, the catalog |
| `doctor`, `doctor_live`, `version` | checks of an installation |
| `upstream` | what a provider's configuration does to a request |
| `metrics`, `mock` | labels of metrics, a scripted upstream |

Most modules state the laws that relate their functions as public proof
functions. `heal::agree` proves that a streamed answer and a whole one yield the
same calls, unless cutting calls out of the text joins its pieces to new markup.
