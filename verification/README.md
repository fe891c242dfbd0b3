# task_slayer

A small command-line task tracker (`tslay`), with its logic verified by Verus.

- `src/` is the verified library:
  - `selector.rs`: reading ids and ranges (`1 3-5 8`) into a sorted list of distinct ids;
  - `model.rs`: tasks, the store, the errors, and what a well-formed store is;
  - `sort.rs`: ordering tasks by id, stably;
  - `store.rs`: adding, listing, marking, editing, removing and renumbering tasks;
  - `repository.rs`: the same operations over a pluggable `Storage`;
  - `render.rs`: the lines that the commands print;
  - `commands.rs`: the commands and what each one does and replies;
  - `paths.rs`: where the task file lives;
  - `messages.rs`: the wording of every error that the program reports;
  - `update.rs`: choosing the release asset, the size cap, the digest check, and the
    gate that approves an update only when all of them pass;
  - `laws.rs`: what holds across operations (ids are never reused over any sequence of
    operations, a selection goes through exactly when every id names a task, undo
    reverts done and done reverts undo, compacting twice is compacting once, listings are ordered, complete
    and stable, selectors fail exactly at their first bad selector).
- `app/` is the program around it: command-line parsing, the JSON file, and the
  network and file work of the self-update.
- `tests/` runs the library on concrete values.
