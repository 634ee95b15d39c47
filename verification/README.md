# coding-tools-mcp (verified core)

The logic of a local coding-tools MCP server, written in Verus and proved
against its contracts:

- `access_log` — nginx combined lines (escaping, formatting, parsing), file
  names and retention by day, the merge of many log files into statistics and
  the newest records, the day-rotation plan of a log writer, and the checked
  per-workspace log directories. `access_log::merge` proves that cutting
  candidates back to the newest N while scanning keeps the same newest N.
- `audit` — settings and their stored form, how a tool result is classified
  (`success`, `failure`, `rejected`), what is kept of inputs and outputs and
  what is stored of a tool call, the SQL of listings and counts, and the
  client address behind proxies.
- `monitor` — goals of a workspace: the status table, the store, the monitor
  that creates, moves, refreshes and judges goals, the goal tools' rules, and
  the status widget.
- `tools` — command-line splitting (Windows rules verified, POSIX rules from
  `shell_words`) and the external-path guard on arguments.
- `tunnel` — the OpenAI tunnel client's release asset, archive entry and
  launch arguments.
- `mcp`, `commands` — JSON-RPC routing, the server's instructions, session
  keys, and the workspace scope of desktop commands.
- `text`, `order` — character-level helpers and a verified sort.

Calls into `chrono`, `uuid`, `shell_words`, `regex`, `sha2` and `serde_json`
(a string's JSON text, whose escaping is stated) stand behind small trusted wrappers whose contracts
state what the crates document.

`app/` holds what Verus does not see: the HTTP middleware, SQLite, files,
JSON shapes and process launching, built on the library's functions.
