# openapi2skill

Turns an OpenAPI 3.x document into an agent skill: a tree of index-linked markdown files
(`SKILL.md`, `authentication/`, `endpoints/<category>/`, `schemas/`) that an agent can
navigate one file at a time.

The library in `src/` is written in Verus. Every function states what it produces in its
contract, and Verus proves the code against it:

- `json`, `loader`: reading a document — its text as JSON or YAML by extension (JSON, then
  YAML, when the extension is unknown), refusing Swagger 2, normalizing the non-compliant
  fields found in real-world documents.
- `model`: the parts of an OpenAPI document that the writers read, as plain values.
- `writer`: the writers, each adding its files to a list of `(path, content)` pairs:
  `skill` (`SKILL.md`), `manifest` (the raw document), `auth`, `endpoint` and `schema`;
  `pipeline` runs them all.
- `text`, `cli`: string helpers with their specifications, and the command line.

Besides the contracts, `src/` proves properties that span functions, among them: categories
come out sorted with every operation in exactly one of them, in document order; one endpoint
file is written for each operation (two operations can still be given the same file name,
for instance `/a-b` and `/a/b`); every index lists each file beside it; file names fit in 200
bytes; schema links reach the schema files; `SKILL.md` links exactly the indexes that are
written, and nothing is written under `authentication/` without security schemes;
sanitizing copies examples and defaults as they are, and sanitizing a sanitized document
changes nothing, for documents whose objects have distinct keys.

`app/` is the command-line program around the library: argument parsing, logging, reading the
document from a file or a URL, turning the prepared document into the model with `oas3`, and
writing the files.
