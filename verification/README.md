# rust_shell

A small Unix shell. The library (`src/`) holds its logic, each function with a
contract proved by Verus:

- `text`, `number`: trimming, splitting, decimal text of statuses.
- `token`, `command_parser`: the tokenizer, the check that no operator follows
  another, the split at `;`, and the building of instructions from tokens.
- `instruction`: commands with their arguments, input and output.
- `pattern`: `{a,b}` alternatives and `* ? [set]` matching for path patterns.
- `shell_variables`: the variable store, `$NAME` expansion, `export`, `echo`,
  `cd`'s target, `PATH` lookup and completion.
- `executer`: how a line splits at `&&`/`||` and `&`, how a chain goes on, how
  a pipeline is wired, and which commands the shell runs itself.
- `string_index`, `line_editor`: the prompt's line editing and history browsing.
- `laws`: properties that span several operations, proved.

`app/` is the program around it: the prompt, processes, pipes, files, signals
and the terminal.
