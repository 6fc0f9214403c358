# zfetch

A terminal system-information fetcher: the distribution's ASCII logo in its
colors, beside a box with the distribution, kernel, CPU, GPUs, memory, swap,
local IP, battery, uptime and disks.

## Layout

- `src/` is the library, verified with Verus. Every function states in its
  contract what it returns:
  - `text` — the string operations the rest is written with, over `Seq<char>`;
  - `config` — the settings of `config.json`;
  - `logo_colors`, `colors` — the color table and the color scheme (`$1`…`$9`
    logo slots, label, title, value and outline colors, the color syntaxes);
  - `theme` — the terminal's colors from `COLORFGBG` or an OSC reply;
  - `ascii` — finding a logo and coloring its markers;
  - `storage` — sizes in gigabytes and percentages, computed exactly as the
    floating-point formulas round them, and `df` lines;
  - `system` — GPU names and kinds, uptime, CPU and memory lines, and the
    assembly of the summary;
  - `linux`, `macos`, `windows` — what each platform's files and tools print;
  - `ui` — the rows of the box and the side-by-side layout.
- `app/` is the program: it runs the probes, reads files and commands, and
  prints the rows that the library builds.
- `tests/` exercises the library on concrete values, including comparisons of
  the exact percentage and size formatting with the floating-point results.
