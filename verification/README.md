# rust_mcp_filesystem

A filesystem MCP server whose `filter_file_lines` tool is a library verified
with Verus.

- `src/` is the verified library: the tool's request types
  (`tools::filter_file_lines`), how a text splits into lines (`text`), keyword
  criteria (`keywords`), line-number criteria and line ranges
  (`line_numbers`), regular expressions through the `regex` crate
  (`regex_match`), which lines a report shows (`select`), the report text
  (`report`), decimal numerals (`number`) and the allowed-directory check
  (`access`). Each public function's contract states its result over the spec
  functions of its module; the public proof functions named `law_*` state the
  properties that hold across calls.
- `app/` is the server around it: command-line arguments, logging, the MCP
  transports and handler, reading the file and checking its path.
- `tests/` runs the library on concrete inputs.
