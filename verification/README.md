# tmux-selector

A terminal program that lists the tmux sessions of a remote host, grouped by
project and ordered by their last use. Type to search, move with the arrows or
the mouse, and attach to a session or start a new one. Sessions are renamed,
moved between projects and deleted from the list, one at a time or many at once.

| Key              | What it does                                        |
|------------------|-----------------------------------------------------|
| type             | search                                              |
| up, down         | move, past what the search hides                    |
| Tab, Shift-Tab   | the action: attach, rename, move, delete            |
| Enter            | run the action                                      |
| Space            | pick a session for the bulk actions                 |
| Esc              | clear the search, then the picks, then the action   |
| q                | quit, where nothing is searched                     |
| Ctrl-C           | quit                                                |

Usage: `tmux-selector [host] [--mosh]`; `--list` prints the sessions and ends.

## Layout

- `src/` is the library. It holds everything the program decides and computes,
  proved with Verus: the state and what changes it, the order of the list, what
  is drawn and where, the commands for the host and the reading of its answers,
  and the configuration. The crate's documentation says what stands in which
  module. What the outside crates contribute (time, JSON, text width, layout) is
  behind small functions whose contracts are believed; their comments say what
  is claimed.
- `tests/` runs the library, with the real outside crates.
- `app/` is the program round it: the terminal, the processes and the files.
