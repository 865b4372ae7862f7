# skillranker

A verified library for ranking agent skills against the current request of a
session. The library in `src/` decides; the program in `app/` reads, sends,
stores and prints. Every function of the library is proved by Verus against
its contract.

| Module | What it decides |
| --- | --- |
| `context` | sessions: transcripts, branches, task history, tool calls, rendering bounds |
| `roster` | skills: frontmatter, discovery, names that can be relied on, retrieval queries |
| `jev` | the provider: endpoints, credentials, redirects, attempt budgets |
| `cache` | leases: who sends a request, who waits, who may publish |
| `pipeline` | a ranking: the order of its steps, its documents, its failures, its trace |
| `evaluation` | recorded cases and labeled frames, and what their reports say |
| `cli` | arguments, configuration layers, local inspection |
| `runtime` | the entry deadline, bounded input, late results |
| `json`, `text`, `chars`, `names`, `score`, `identity`, `output` | plain values |

Floating-point numbers are held by their bits (`score`), and times are
readings that the caller takes, so that every contract speaks of plain values.
Calls into other crates (`serde_json`, `blake3`, `toml`) stand behind small
wrappers whose contracts say what is believed of them.
