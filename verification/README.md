# pkg_history

Reconstructs which packages were installed by hand from the logs of the
Debian package tools, and proves with Verus that the reconstruction does
what it says.

Two logs are read:

- the apt history, reduced to its `Commandline:` lines (`apt install -y vim`,
  `apt-get remove nano`, ...);
- the dpkg log, filtered to its status lines, read from its last line to its
  first.

Every line becomes events (an action on a package). An installation cancels
the first pending removal of the package or else makes it a candidate for
installation; a removal does the converse. The library proves that after a
whole log a package is a candidate for installation exactly when the log
installs it more often than it removes it, and that no package is ever in
both lists.

Layout:

- `src/` — the verified library (`text`, `stats`, `action`, `error`, `apt`,
  `dpkg`, `pattern`, `timeline`, `sorting`, `history`);
- `tests/` — tests run against the compiled library;
- `app/` — the command-line program: reads the logs named by the
  environment variables `GREPPED_LOG` and `APT_HISTORY_GZIP`, runs `rg` and
  `apt-cache`, and prints the candidates and the time each step took.
