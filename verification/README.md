# jj_spr stack information

A verified library that finds where a commit stands in a stack of commits
that carry pull request numbers, and builds the stack section of a pull
request description.

- `src/stack_info.rs`: `detect_stack_position` and `build_stack_info_text`,
  with the spec functions that state their results exactly.
- `src/stack_laws.rs`: properties of stacks and of the text, proved.
- `src/message.rs`: the sections of a commit message, as a map.
- `src/config.rs`: repository settings.
- `src/decimal.rs`: decimal writing of unsigned integers.
- `app/lib.rs`: logging set-up through `tracing-subscriber`.
