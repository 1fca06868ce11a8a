# embedding_bench

A benchmark harness for sentence embeddings. It draws sentences round-robin
from a corpus bucket, lets an engine embed them, and reports latency,
throughput, start-up time and memory.

`src/` is the library, verified with Verus. It holds what the harness decides:

| Module | What it holds |
|---|---|
| `run`, `run_laws` | the course of a run, and what holds of every run |
| `workers` | workers that share one measurement |
| `corpus` | the sentences and the batches drawn from them |
| `config`, `result` | the arguments and the record of a run |
| `double`, `sort`, `latency` | numbers as bit patterns, a stable sort, percentiles |
| `memory` | memory readings and their peak |
| `tokens`, `rows` | batches of tokens, laid end to end |
| `pooling` | which rows of a model's output make up a vector |
| `llama`, `ollama` | what goes to llama.cpp and to an Ollama server |
| `vectors`, `output` | the vector file, and small matters of output |

The library computes with integers only. A floating-point number passes
through it as its bit pattern.

`app/` is the program: one subcommand per engine (`ort`, `fastembed`, `candle`,
`ollama`, `llama`). It loads models, sends requests, reads the clock and the
memory of the process, does the floating-point arithmetic, and reads and writes
files. It asks the library what to do next and hands it the answer.

`tests/` runs the library on concrete values.
