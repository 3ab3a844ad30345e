# Loft

Loft (凌台) is a small desktop console for Windows: it edits environment
variables (user, machine and process scope, with an elevated helper for
system-wide changes), keeps portable paths of launcher items relative to
chosen roots, lists the ports in use and the processes behind them, scans
the Start menu for shortcuts, and shows live metrics in the system tray.

## Layout

- `src/` — the library, verified with Verus. Each module states in its
  contracts what its functions return:
  - `env`, `path_list`, `registry`, `elevate` — variable rules, `PATH`
    lists, registry value encoding, the elevated helper's protocol;
  - `path_resolve` — relative paths under roots and their resolution;
  - `ports`, `launcher`, `monitor`, `files`, `icons`, `settings`, `diag` —
    the port list, Start-menu shortcuts, monitor caches, shell targets,
    icon extraction, settings files and start-up diagnostics;
  - `tray` — the 5x7 pixel font, text icons, the CPU bar and the record of
    the machine's location (the program runs offline and asks no network
    service);
  - `text`, `numfmt`, `sorting`, `json`, `paths` — shared text, number,
    sorting, JSON and path helpers.
- `tests/` — tests of the library on concrete values.
- `app/` — the program around it: the Tauri shell, operating-system access
  (registry, sockets, processes, files, child processes) and the
  floating-point tray readings. The library decides each change (variable
  writes, process termination, icon scripts); app/ carries it out only
  when the library returns it.
