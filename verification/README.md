# Break/Points

A row of browser panels, one at each width where a site's layout changes. The
widths come from the project's own code: its Tailwind config, its Drupal
breakpoint files, the media queries in its stylesheets. The row can be driven by
hand or by an agent, and says what is wrong with what it shows.

`src/` is the library, in Verus: what is found, what is decided and what is
computed, each function with a contract that is proved. `tests/` runs it on
concrete values. `app/` is the ordinary Rust round it: the window, the network,
the disk and the clock.

| where | what |
| --- | --- |
| `scanner/` | walking a project, reading its configs and stylesheets, merging what they say, finding its dev server |
| `generate` | turning breakpoints into a set of panels |
| `canvas/` | laying the row out, panning it, scroll sync, following links, load states |
| `model`, `state` | the config, the notes people write, the console |
| `project`, `project_file` | opening a project, and reading and rewriting its `breakpoints.md` |
| `callback`, `bridge`, `tools`, `commands` | what panels say, what an agent asks for, what the window asks for |
| `audit`, `access`, `verify`, `explain` | layout checks, accessibility, whether a page really changes at a width, what a note is about |
| `picture`, `shots`, `baseline`, `references` | cropping, stitching and comparing pictures |
| `browser`, `terminal`, `skills` | what to start, and how |
| `text`, `table`, `order`, `json`, `util`, `window` | what the rest stands on |

The terminal starts the command that `BREAKPOINTS_AGENT` names, and skills are put
into the folder that `BREAKPOINTS_SKILLS` names.

Sizes are kept in millionths of a pixel, confidences in hundredths, times in
milliseconds.

Some results come from other crates, and their contracts are stated rather than
proved: regular expressions, URLs, SHA-256, YAML, JSON, and random bytes. Each
says in its comment what is taken on trust.
