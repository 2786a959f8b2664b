# airc

An IRC client for the terminal that searches a channel for books and receives them over
DCC. Its logic is a verified library: every function states in its contract what it returns
or changes, and Verus proves that it does. A function that cannot serve every input (a sum
that would not fit, an edge outside the screen) says in `requires` which it takes; what the
library has from the standard library or another crate stands behind small items marked
`external_body`, whose contracts are taken on trust.

- `src/` is the library: the lines of the protocol (`irc`, `client`, `pattern`), the commands
  of the user (`commands`), transfers (`dcc`, `download`, `net`), the configuration and the
  identity of the client (`config`, `session`), errors and the log (`error`, `logger`), and
  the state and the panes of the interface (`tui`). `text`, `number`, `casing`, `clock` and
  `percent` hold what these are built on.
- `tests/` runs the library.
- `app/` is the program around it: sockets, files, archives and the terminal.

Percentages are computed in integers, bit for bit as double-precision arithmetic gives them.
