# binx

An alias manager for executables: run binaries by short names, install a
launcher script for them in `~/.binx/`, and give them a desktop entry.

- `src/` is the library, verified with Verus: Unix path handling
  (`paths`), the alias configuration as a sorted map (`config`), version
  numbers (`version`), the
  self-installation (`install`), environment-dependent paths (`system`),
  scripts, desktop entries, icons and removal (`desktop`), the command-line
  decisions (`cli`), and properties across them (`laws`).
- `app/` is the program: argument parsing, reading and writing files, JSON,
  running commands and replacing the process with the target.
- `tests/` exercise the library, among them against `std::path` and `str`.

Aliases are stored in `~/.config/binx.json`:

```json
{
  "aliases": {
    "myapp": {
      "path": "/opt/myapp/bin/myapp",
      "script": "/home/user/.binx/myapp",
      "desktop": "/home/user/.local/share/applications/binx_myapp.desktop"
    }
  }
}
```
