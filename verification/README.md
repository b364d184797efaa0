# updet

A universal Linux update tool: it finds out which distribution it runs on and
which package managers are installed, and updates them from a menu or from
command-line flags.

- `src/` is the library, verified with Verus: reading `/etc/os-release`,
  choosing the managers that apply to a distribution, dropping redundant ones
  (pacman when an AUR helper runs, yum when dnf runs), the update
  commands, the menu and command-line decisions, and the text layout.
- `app/` is the program around it: reading files, probing `PATH`, running the
  update commands and printing.
- `tests/` runs the library on concrete inputs.
