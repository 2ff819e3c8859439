# carrot_utils

A small suite of Unix-style command line tools (copy, move, list, pager,
shell, user database, permission and ownership changes, file wiping and
more), built around a library whose logic is verified with Verus.

- `src/` is the verified library: every rule the tools follow — how a
  line is cut, how the pager scrolls, how the shell groups words and checks
  `if ... do`, how the line editor answers keys, which switches are
  accepted, what a move or a copy does with each source, how users are
  added, updated and deleted — is a function with a `requires`/`ensures`
  contract, and the laws that tie the functions together are proof
  functions (`law_*`).
- `app/` is the program around it: one binary that picks the tool by the
  name it is called by, reads the terminal, the file system and the
  configuration files, and hands the library plain values.
- `tests/` runs the library on concrete cases.
