# bashka checks

Four of bashka's checks on `curl … | bash` install scripts, verified with Verus:

- `auto_update`: the script writes a launcher that downloads on its own each time it runs;
- `dynamic_download`: a download whose URL is nothing but another command's output;
- `package_repos`: the script adds a repository or signing key to the package manager;
- `telemetry`: the script sends something about the machine out.

Layout of `src/`:

- `script.rs`: the parsed form of a script that the checks read (commands, their words,
  the programs a script writes), the shared settings, command base names and URL hosts;
- `model.rs`: verdicts, details and findings;
- `text.rs`, `search.rs`: character-level helpers and "first position" reasoning;
- one module per check, each with its per-command (`visit_command`) and per-script
  (`finalize`) steps and an `analyze` that runs the check over a whole script.

Each function's contract states its result exactly, over spec functions on the texts of
the words; `analyze` states what a whole script gets: at most one finding, about the
first command that qualifies. The tests under `tests/` write each script as the
commands it runs.
