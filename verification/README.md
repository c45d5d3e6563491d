# lvv

lvv turns records into vectors: it reads datasets from files and databases,
rewrites them with chat models, embeds them with Ollama or OpenAI-compatible
servers, and writes the result to Qdrant and PostgreSQL.

This crate is written in [Verus](https://github.com/verus-lang/verus). The
library states what its functions take, return and change in `requires` and
`ensures` clauses, and Verus proves them.

| Directory | Contents |
|-----------|----------|
| `src/`    | The verified library: request bodies, error classification, retries, the circuit breaker, caches and their keys, batching, file formats, jobs, sinks, points |
| `app/`    | Ordinary Rust around it: HTTP, files, databases, the environment, command lines |
| `tests/`  | Tests of the library |

## How the library and the application meet

The library never does I/O. Where a run alternates work and decisions, the
library holds the state and says what to do next, and the application does it
and hands back what came of it:

- `transform::run`: `prepare` resolves what needs no model, `Flight` says which
  record to send next, `Execution` takes each reply, `RunState` and
  `CompleteState` take each delivery.
- `transform::retry`: `after_attempt` says whether a request is sent again, and
  after how long.
- `inference::embedding_model`: `EmbedSession` says which texts to send next.
- `jobs::job_queue`: `QueueRun` says which job to embed and which sink to write.

## What is trusted

A few functions call outside crates or parts of `std` that Verus has no
specification for. Each is marked `#[verifier::external_body]`, and its doc
comment says which call it makes and what its contract claims: `serde_json`
(quoting, parsing and delimiting values), `sha2` (hashing), `rand` (jitter and
random bytes), `uuid` (formatting), `csv` (records), and from `std` the `Debug`
and the `Hash` of `str`, `Path::extension`, UTF-8 decoding and `String::push`.
