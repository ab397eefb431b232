# expense_tracker

A verified library for a student's expense tracker, written in Verus.

- `src/` is the library: expense records (`expense`, `fixed_str`), the record
  list and its queries (`tracker`), the data file and settlement file formats
  (`store`, `settlement`), table rows (`report`), number and text handling
  (`number`, `text`), and the decisions of the interactive dialogs (`dialog`).
- `app/main.rs` is the program around it: terminal input and output, the
  files, the clock, and the amounts, which are doubles the library only
  carries as bit patterns.
- `tests/` exercises the library on concrete values.
