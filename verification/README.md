# libs_tools

Tools of the Rust library team, with their logic verified by Verus.

- `src/` is the verified library. Each module states its behaviour in
  `requires`/`ensures` contracts over spec functions, and proves it:
  - `text`, `strmap`, `markdown`: characters, ordered maps keyed by text,
    Markdown escaping and short links.
  - `issues`, `query`, `fcp`, `agenda`, `cli`: the meeting agendas built from
    GitHub issues and rfcbot FCPs.
  - `minutes`: the meeting minutes read from the rfcbot page.
  - `ipcheck`, `ipnew`: the comparison of IP address methods across languages.
  - `contributors`: contributions per file and per directory from `git log`.
  - `unstable`: which items belong to the API of an unstable feature.
  - `survey`: the answers of the lock poisoning survey.
  Public proof functions named `law_*` state properties that span calls.
- `app/` holds the programs around the library: the command line, network and
  file access, running `git` and other processes, and the `syn`/`serde` glue.
- `tests/` runs the library on concrete inputs.
