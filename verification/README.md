# todo_cli

A command-line task list ("todo"): tasks with a priority, an optional due
time and a pending/done status, kept in a JSON file.

- `src/` is the library, verified with Verus: the task model (`model`),
  text helpers (`text`), due times (`due`), the operations that add, mark,
  edit and delete tasks (`ops`), selection and sorting (`query`), the table
  and statistics (`report`), and the laws that relate them (`laws`).
- `app/` is the program around it: argument parsing, the data file, JSON
  output, terminal detection and the update check.
- `tests/` runs the library on concrete values.
