# jf

Fetch any webpage as clean Markdown through the jina.ai Reader
(`https://r.jina.ai/<url>`), with retries, error classification and batch
mode.

- `src/` is the library, verified with Verus: URL validation and
  filename derivation (`utils`), request URLs, response classification and
  the retry state machine (`http`), error kinds, messages, exit codes and
  target-site error detection (`error`), configuration and backoff
  (`config`), batch progress and exit codes of a run (`commands`), and the
  character-level text operations they rest on (`text`).
- `app/` is the command-line program: argument parsing, HTTP, files,
  standard input and output, and the async loops that carry out what the
  library decides.
- `tests/` runs the library on concrete inputs.
