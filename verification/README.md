# rsh

A small Unix shell: pipes, redirections, chains (`;`, `&&`, `||`),
one-line conditionals (`if … then … else … end`), background jobs (`&`,
`jobs`, `fg`), a command history with `again`, shell variables (`get`,
`set`, `unset`), Ctrl+C handling and a built-in `help`.

The library under `src/` holds the shell's logic and is verified with Verus:

- `format_line` splits a line into arguments (quotes, escapes, operators,
  comments);
- `history` expands `again` against the history;
- `parser` turns the arguments into a command tree;
- `machine` runs a command tree as a state machine: each step says which
  piece of outside work comes next (start a program, open or copy a file,
  read a pipe, print, change directory) and takes its outcome back;
- `variables`, `help`, `shell` and `colors` hold the variables, the help
  texts, the prompt and messages, and the colored output;
- `laws` states and proves properties that span these operations.

`app/` is the program around it: the line editor, the processes, the files
and the terminal.
