# headband

A guessing game for friends on a network. Everybody names a thing for somebody else, sees everybody's
thing but their own, asks yes/no questions in turn and guesses.

- `src/` is the game, verified with Verus: `host` has the rules and what is sent to whom, `notes` a
  small text editor, `app` a player's side of the game, `screen` and `frame` what a player sees,
  `startup` the arguments and addresses. What holds of every game, text and screen stands in
  `host_laws`, `notes_laws`, `app_laws` and `frame_laws`.
- `app/` is the program around it: sockets, threads, JSON and the terminal.
- `tests/` runs both sides of the game, and draws it on a terminal in memory.

What is left to chance and to the clock comes in as an argument (`apply_with`, `leave_with`,
`tick_at`, `clock_at`), so that the rules are exact; the functions that draw and read the clock
themselves (`apply`, `leave`, `tick`) say that they do one of the things that chance allows.
