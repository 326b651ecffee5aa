# broski

A deterministic task runner. Tasks declare their inputs, outputs and
dependencies; a task whose inputs are unchanged is answered from the artifact
cache, and the outputs of one that runs are promoted all at once or not at all.

- `src/` is the library, written and proved in Verus: the task graph, the steps
  of a task, the promotion of outputs, the artifact cache, the explanation of
  cache misses, the command line's words, and the state behind the launcher and
  the dashboard. It decides; it does no input or output.
- `app/` is the program around it: it reads files, runs processes, keeps the
  database and draws the terminal, as the library tells it to.
- `tests/` exercises the library on concrete values.
