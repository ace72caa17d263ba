# lc3_tui

A terminal front end for an LC-3 simulator, whose logic is a library verified with Verus.

- `src/` is the verified library. Verus proves every function in it against its contract,
  except for a few small wrappers around calls into the terminal library, `lc3-isa` and
  `std`, whose contracts are trusted and say what those calls do:
  - `ansi`: reading text with ANSI escape sequences into styled runs, with the display
    attributes (bold, colours and the like) applied to the style;
  - `numbers`, `strings`, `util`, `modes`, `device`, `program_source`: the texts the screen
    shows, numbers read from text, trimming to a width, the device and program source
    arguments;
  - `events`, `state`: the terminal events and the event loop's decisions (flushes, quitting,
    resizes);
  - `group`, `layout`, `draw`: groups of widgets that share an area, pass the focus along and
    route clicks; the split of an area;
  - `mem`, `points`, `widgets`: the memory view with its breakpoints and watchpoints, the
    registers, console, timers, footer, buttons, load button and log views;
  - `panel`, `screen`: the keyboard controls and screen texts of the stand-alone simulator.
  The public `law_*` proof functions state what holds across calls.
- `tests/` runs the library on concrete values.
- `app/` is the program around it: the command line, the terminal, the threads that read
  events, the simulator and the drawing.
