# hew

hew reads log lines from stdin and writes them to stdout. A line that is a
JSON object is rebuilt from the sections of `config.toml`: each section takes
one attribute of the object and wraps its text in the prefixes and suffixes of
the affixes whose condition holds for it. Every other line passes through
verbatim, and nothing in the input stops the stream.

## Layout

- `src/` — the verified library.
  - `models.rs`: the configuration types, their mathematical models, and
    `Affix::applies_to` (regular expressions are matched with `regex_lite`).
  - `service.rs`: the specification and implementation of line formatting
    (`value_text`, `format_section`, `format_parsed`, `format_line`) and of
    the byte stream (`write_record`, `filter`); JSON is read with
    `serde_json`, bytes are decoded with `String::from_utf8_lossy`.
  - `laws.rs`: properties proved of every configuration and input: affix
    nesting, section order, pass-through, stream composition, terminators,
    one line of output per record.
  - `text.rs`: character helpers (substring search).
- `app/` — the command-line program: argument handling, reading
  `config.toml` with `toml`/`serde`, and the stdin/stdout loop.
- `tests/` — tests of the library on concrete inputs.
