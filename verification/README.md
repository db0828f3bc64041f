# fltn

Flattens a serialized data structure (CSV, JSON, TOML, YAML) into one
assignment per value, so that it can be searched with `grep`:

```
json = {};
json.users = [];
json.users[0] = {};
json.users[0].name = "Alice";
```

## Layout

- `src/` is the library: its logic with proved contracts, and the calls into
  outside crates behind small trusted wrappers whose contracts say what those
  crates compute.
  - `value.rs`: the document model (`JsonValue`).
  - `lines.rs`: what the output is, as a specification: the lines of a
    document (`flattened`), the path segments (`.key`, `["key"]`, `[i]`),
    and the laws proved of them (one line per value, every line a complete
    assignment from the root, key order with and without sorting).
  - `printer.rs`: `Printer`, which writes those lines with an explicit stack
    (no recursion), either all at once (`print`) or one at a time
    (`Printer::lines` and `Flattener::next_line`).
  - `order.rs`: code-point order of keys and a stable merge sort, with its
    laws (a permutation, in order, stable).
  - `deserializer.rs`: reading the input in its format: CSV records to
    objects (quotes trimmed, header order, later fields replacing earlier
    ones under the same key); JSON (no recursion limit), TOML and YAML by
    their parsers.
  - `tree.rs`: the `serde_json` tree that the parsers build and the JSONPath
    query reads, and its conversion to and from the document model.
  - `format.rs`, `input.rs`: choosing the input format from `--format` or
    the file extension.
  - `color.rs`: the `--color` choice.
  - `query.rs`: the `--path` filter: a JSONPath query by `jsonpath_rust`,
    its matches gathered into one array.
  - `text.rs`, `json_text.rs`, `unicode.rs`: decimal notation, characters of
    a string, JSON string literals and Unicode categories.
- `tests/`: tests of the library.
- `app/`: the command-line program: argument parsing, reading files and
  standard input, error context, painting colors, and writing to standard
  output.
