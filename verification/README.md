# logtrak

A log viewer that follows appended lines across many files in one feed: in the terminal, in a
window, or printed to the standard output.

`src/` is the viewer's logic, verified with Verus. It does no input or output of its own: a poll is
answered from a `Snapshot` of the file system, and the watcher names beforehand which directories,
files and stretches it needs.

| module | what it holds |
| --- | --- |
| `text`, `order`, `paths`, `path_table` | text, its order, slash-separated paths, tables by path |
| `dates`, `wildcard`, `resolver` | placeholders and date suffixes, `*` and `?`, from a tracked path to files |
| `token_laws`, `suggestion_laws` | what filling in a date does to a text, what a suggested pattern stands for |
| `snapshot`, `lines`, `tracking`, `watcher` | what was seen of the file system, lines, one file, all files |
| `watcher_laws`, `repeat_laws`, `rollover_laws`, `switch_laws` | what holds of every poll, of a second one, of a new day, of switching files on and off |
| `line_rules`, `formatting`, `buffer` | which lines are shown, how, and how many are kept |
| `cli`, `config`, `enabled_files` | settings: defaults, file, command line, validation |
| `ui`, `tui_theme` | the terminal interface |
| `gui`, `gui_theme` | the graphical interface |

`app/` is the program around it: arguments, files, clock, terminal and window.

What is taken on trust stands in `src/` with a comment of its own: the `regex` crate's compiling and
matching, the `time` crate's calendar and clock, the `toml` crate's parser, and of the standard
library `String::push`, `String::pop`, `String::from_utf8_lossy` and `str::to_lowercase`.

Paths are text with slashes; the program hands them over in that form on every system.
