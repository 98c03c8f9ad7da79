# dweb_cli

The values that the dweb command line reads, as a verified library:

- `str_to_entries_range` reads a RANGE of history entries (`3`, `3:`, `:7`,
  `2:7` or nothing) after the `regex` crate has matched it against
  `ENTRIES_RANGE_PATTERN`; `entries_range_from_captures` does the reading of
  the matched groups.
- `greater_than_0` reads a count that must be at least one.
- `parse_unsigned` reads unsigned integers by the rules of `str::parse`.

`src/` is the library, proved with Verus; `tests/` runs it; `app/` holds the
clap definitions of the options and subcommands.
