# mitos

A Unix shell and its privilege helper, with the shell's logic written and
proved in Verus.

- `src/` is the library: lexers and parsers of command lines and scripts,
  word expansion (variables, arrays, arithmetic, command substitution,
  tildes, field splitting), the builtins, the decisions of the line shell
  and of the script executor, completion, the job table, the permission
  protocol's framing and pending requests, and the shadow-file lookup of
  `lala`. Every function states what it returns in its contract, and the
  properties that span functions are stated as proof functions named
  `law_*`.
- `app/` is the program around it: the line editor, running processes,
  pipes and redirections, signals, the permission daemon connection, and
  `lala` (selected when the program runs under that name).
- `tests/` runs the library on concrete inputs.

Calls into other crates that the library makes (`dirs::home_dir`,
`glob::Pattern`, a few `char` and `str` methods) go through small trusted
wrappers whose contracts say what those functions are relied on for.
