# fs-test-harness

The runner of a test harness for filesystem drivers. A project declares its ops in
`harness.toml` and its scenarios in `test-matrix.json`. Each scenario has a recipe:
steps that run on the orchestrator host or, over SSH, on a Windows VM. The runner
goes through the recipes, runs again what failed, and writes down what came of it.

The library under `src/` is verified with Verus. It decides; it starts no program and
touches no file.

- `config`, `matrix`: what the two files declare.
- `json`, `string_map`, `text`, `numeral`, `paths`, `sorting`: the values underneath.
- `template`, `substitution`: the placeholders of command templates and the
  predicates of ops.
- `vocab`, `invocation`: the flat tokens, and the programs to start.
- `dispatch`: what each step of a recipe does, and when the recipe stops.
- `runner`: which scenarios run, how many at a time, and how often.
- `outcome`, `report`: what is reported.
- `toml_adapter`: hands a whole scenario to one script on the VM.

Functions named `law_...` state what holds of the library as a whole: a recipe stops at
its first failure, a flat token hides a dotted path, a scenario is broken only if it
failed in every pass.

The program under `app/` reads and writes the files, starts the commands that the
library names, and hands back what came of them.
