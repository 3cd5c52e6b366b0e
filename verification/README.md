# cpuguard

A manager for `cpulimit` on macOS: it keeps rules about processes that use too much CPU, runs an
agent that limits them while they are hot and lets go of them when they have cooled down, and shows
what is limited.

- `src/` is the library, verified with Verus.
  - `model`, `store`: the rules and the recorded limiters, and what can be done to them.
  - `app`: the operations (`watch`, `unwatch`, `limit`, `clean`) and the agent (`agent`, `plan`,
    `tick`). `service_laws`, `tick_laws` and `endings` state what they keep, whatever happens.
  - `infra`: what is read off the output of `ps`, `pgrep`, `launchctl` and `cpulimit`, and the
    launchd job of the agent. `job_laws` states what happens to its files.
  - `cli`: checks of arguments, tables, and the session with the list of the busiest processes.
  - `text`, `lists`, `paths`, `cpu`, `clock`: texts, lists, paths, loads and time.
- `tests/` runs the library.
- `app/` is the program: arguments, files, commands and the terminal.

An operation that needs the outside world is a dialogue. It says what it asks for, is told the reply,
and goes on by it. Its contract gives the next request and the next state for every reply, so a law can
speak of every run. Where something has to be put back after a failure, the laws say so: they hold as
long as that can be done.
