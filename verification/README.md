# sabantui

Display configuration for X11, wlroots compositors, GNOME and KDE, from the command line or an
interactive interface.

- `src/` is the library: reading what `xrandr`, `wlr-randr`, `kscreen-doctor`, `ddcutil`, Mutter and
  other services report, the changes to a layout, the arguments and requests that carry them out,
  and the state of the interface. Every function in it has a contract that Verus proves.
- `tests/` runs the library.
- `app/` is the program around it: the command line, processes, files, the bus and the terminal.

Numbers with places are kept as their IEEE 754 bit patterns (`float`), with exact arithmetic on
whole numbers followed by one rounding. Where a task goes back and forth between decisions and the
outside (looking for a service, trying one setter after the other), the decisions are a state
machine in the library; the program performs each action and reports what came of it. Logarithms and
powers, which the colors of a temperature need, are computed by the program and handed in.
