# workbench

Small command-line tools in the manner of the Unix ones — `catr`, `headr`,
`wcr`, `uniqr`, `findr`, `grepr`, `commr`, `tailr`, `fortuner`, `calr` and
`lsr` — whose logic is verified with Verus.

- `src/` is the library: one module per tool, holding what the tool decides
  and computes (numbering, counting, collapsing runs, merging sorted files,
  selecting lines, reading counts and dates, laying out a calendar or a long
  listing), each function with its contract, and the laws that tie them
  together as proof functions.  `text.rs` and `decimal.rs` hold the shared
  character and number handling; `paths.rs` takes paths apart into their
  components, as the standard library does, to sort them; `pattern.rs`
  holds regular expressions, which the `regex` crate compiles and runs.
- `app/` is the program around it: argument parsing, reading files and
  directories, and printing.  It runs the tool named by its first argument
  (`workbench wcr -l file.txt`) or by the name it is started under.
- `tests/` runs the library on concrete inputs.
