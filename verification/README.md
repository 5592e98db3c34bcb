# usage_monitor

The logic of a Windows taskbar widget that shows how much of the usage limits of Anthropic
and Codex is used up, written and verified in Verus.

- `src/` is the library. Its functions have contracts that Verus proves; only what the
  state of the poll gate is, which threads share, is stated of a model of its steps
  instead. The library performs no I/O: a function is told what is known so far, or what
  has just happened, and returns what to do next or what the result is. What is taken on
  trust about other crates and the standard library stands in a few small functions whose
  doc comments say what is claimed.
- `tests/` runs the library on concrete values.
- `app/` reads files, runs programs, sends requests and calls the Windows API, as the
  library decides. The modules that call the Windows API exist on Windows only.

The program is told one thing by its environment: the name of Anthropic's command line
tool (`USAGE_MONITOR_TOOL`). The names of its directory, of the models that the Messages API
is asked with and of the log file are made from it.

Percentages are binary64 numbers held by their bit patterns; the arithmetic on them is done
in integers and proved to round as IEEE 754 asks.
