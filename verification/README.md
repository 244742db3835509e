# wally

The decision logic of `wally`, an interactive Git companion, as a library verified with
Verus, and the command-line program around it.

- `src/` is the verified library. Each command's logic stands there as functions from
  plain values (the text git printed, the user's answers) to plain values (what to show,
  the arguments of the next git call), or as a state machine that takes the answer to its
  last action and names the next one. Contracts state the results over `Seq<char>` models
  of the text; the laws that span several calls are public proof functions.
  - `text`: the `str` operations the logic relies on (trimming, lines, words, parsing,
    padding, byte offsets), specified over characters.
  - `stats`, `tag`, `conflict`, `branch`, `commit`, `input`, `reset`, `git`: reading git's
    output and building messages and arguments.
  - `update`, `sync`, `resolve`, `push`: the flows that stash, pull, resolve conflicts and
    push, as state machines.
  - `stage`: the interactive list of `wally add`.
  - `models`, `templates`, `tree`: project templates, the template listing, the file tree
    and the context document.
  - `cli`, `menu`, `help`: the commands, the main menu and the help tables.
- `app/` runs git, reads the terminal and the files, and drives the library.
- `tests/` runs the library on concrete values.
