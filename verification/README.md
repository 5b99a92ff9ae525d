# cactup

Bookkeeping for Cactus simulations on clusters: a database of machines, the layout of a run on a
machine's queues, the scripts and the records of submitted jobs, and what becomes of them.

* `src/` is the library. Every function states what it gives, and Verus proves it. Calls into other
  crates (regular expressions, TOML, ordered maps, dates, git URLs) stand in a few small functions
  whose contracts are taken on trust; each says what it takes for granted.
* `app/` carries the library's answers out: files, processes, the network and the terminal.
* `tests/` runs the library.

The library's modules:

* `mdb`: machines, their queues, script variants, universes and optionlists; how a machine is found
  for a host; how the database is kept current.
* `sim`: simulations, their restarts, the variables and scripts of a job, what is shown and cleared
  away.
* `scheduler`: what is asked of a machine's queueing system, and how its answers are read.
* `template`, `shell`, `walltime`, `tail`, `progress`: variables in texts, quoting, times, the end of
  a growing file, lines of progress.
* `text`, `order`, `search`, `table`, `toml_text`, `pattern`, `clock`: what the others are made of.
