# upgrade-cockpit

A terminal cockpit for running scripted system updates, with its logic verified
in [Verus](https://github.com/verus-lang/verus).

Update tasks are declared in manifests. The library builds a catalog of them,
orders a selection by its dependencies, checks what each task needs, steps
through a run, keeps profiles and a history of runs, and works out what the
cockpit shows and what its keys do. Every function states in its contract what it
returns; every type has a model, and the contracts speak of the models.

## Layout

- `src/` is the verified library
  - `text`, `paths`, `failure`: strings, paths of Unix and Windows, failures
  - `catalog`, `variables`, `schedule`, `planning`: tasks with their environment,
    dependency order, execution plans
  - `runner`, `session`: outcomes, preflight checks, commands, and a run step by
    step
  - `persistence`, `profiles`, `workspace`: saved states, profiles, the root
    directory
  - `cli`, `app`: commands and what they show
  - `tui`: the cockpit; `model` says what its state is and how every operation
    changes it, `state` implements that, `laws` and `course` hold what follows
    across operations, `control` the keys, `view`, `layout` and `scene` what is
    shown and where
- `tests/` runs the library
- `app/` is the program: arguments, files, processes and the terminal

## What is trusted

Three outside calls stand behind contracts that are believed without proof:
splitting an area of the screen (`tui::layout`), local time (`tui::clock`) and the
user's configuration directory (`persistence`). Their doc comments say what is
claimed of them.
