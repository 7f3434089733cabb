# gantt_cli

A terminal Gantt-chart planner: projects made of tasks with durations, dependencies and
sub-tasks, a personal todo list with steps, undo/redo, and a key-driven editor.

The planner's logic is a library verified with Verus (`src/`); the terminal program
around it (`app/`) reads and writes the data file, draws the screen with `ratatui`,
reads keys with `crossterm` and sends the todo list to `ntfy.sh` with `ureq`.

## Layout of `src/`

| Module | What it holds |
|---|---|
| `date` | calendar days; reading and writing `mm/dd/yy` through `chrono` |
| `text` | small string operations used by the contracts |
| `model` | the saved data (projects, tasks, todo entries, column settings) and their views |
| `lookup`, `hierarchy` | finding tasks by id; the depth of a task in the parent tree |
| `schedule`, `schedule_laws` | computing task dates from dependencies, with each parent spanning its children; which tasks get dates and what those dates satisfy |
| `renumber`, `outline`, `outline_laws`, `labels` | renumbering ids; moving families of tasks, and moving down undoing moving up; outline labels such as `1a`, `2b3` |
| `app` | the planner's state and its well-formedness |
| `history` | snapshots for undo and redo (every edit of tasks, of the todo list or of the list of projects takes one) |
| `projects`, `archive` | adding, deleting, restoring, reordering, archiving and switching projects |
| `task_ops` | adding, deleting, moving and (un)indenting tasks |
| `todo`, `subtasks` | the todo list, its steps and its links to tasks |
| `nav` | moving the selection and the focus |
| `edit` | loading a field into the edit buffer and saving it back |
| `session` | start-up, saving, the push request |
| `keys`, `key_laws` | what each key does in normal and in editing mode; what quitting and deleting a project promise over all states |
| `layout`, `chart` | column widths, row kinds, the days the timeline shows, header marks, bar cells, and todo emphasis and row highlight for drawing |

Each operation on the planner states its effect in its `ensures`, most of them over the
whole state; laws that relate several operations (undo then redo, delete then restore, moving a
project forward then backward, …) are public proof functions named `law_*`.

`tests/` exercises the library from outside on concrete values.
