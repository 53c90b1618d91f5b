# ljx

Offline toolbox for `.logjet` files: count, filter, export, summarise,
deduplicate and browse the OpenTelemetry records they hold.

- `src/` is the library. It is written in Verus, and every function carries a
  contract that is proved:
  - `text`, `json`, `otlp`, `record`: plain values and what is done with them;
  - `predicate`, `dataset`, `dataset_index`, `block`: which records are asked
    for, and which files and blocks can hold them;
  - `dedup`: how records are grouped, from equal texts to mined templates;
  - `exporter`, `cli`, `commands`: what each command computes; `commands::view`
    is the screen as a state machine from keys to effects and drawing steps;
  - `bridge`: the calls into other crates, with what is believed of them.
- `app/` is the program: arguments, files, terminals, threads and plugins.
- `tests/` runs the library on concrete values.
