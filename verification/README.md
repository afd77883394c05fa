# ollama-model-resolver

Chooses the variant of an Ollama model that fits a machine, and pulls it.

- `src/` is the library, verified with Verus. It decides: how tags are ranked, which
  manifests are looked up and what follows from them, what a machine can hold, which
  search result is meant, what is shown, and what may be pulled.
- `app/` is the command-line program around it: arguments, HTTP, the state of the
  machine, prompts and printing.
- `tests/` runs the library.

## Where things are

| Module | What it holds |
|--------|---------------|
| `types`, `error` | the data, labels on tags and sizes, errors and their messages |
| `fit`, `rank`, `resolver` | memory estimates and verdicts, the ranking policy, the search for a variant |
| `registry`, `cache`, `scrape` | what a registry is asked, remembering its replies, reading its pages |
| `hardware` | from raw readings to the profile of a machine |
| `search`, `selection` | rows of a search, and which model is meant |
| `cli`, `command`, `flow`, `endpoint`, `pull` | requests, decisions between the steps, addresses, pull events |
| `display`, `sanitize`, `safety` | what is shown, and why it holds no control characters |
| `parallel`, `order`, `text` | workers and the order of results, stable sorting, character sequences |

Functions named `law_...` state what holds of the library as a whole.

Floating-point numbers stay outside the library: a parameter count is held as the bits
of a binary64 number, and shares of a split model come in as texts.
