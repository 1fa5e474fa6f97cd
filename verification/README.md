# hermes

The logic of Hermes, an OPC-UA bridge that polls plant-floor nodes, shows
them live, serves them over a REST API, logs them to CSV and browses the
server's namespace — written in Verus, with its contracts proved.

`src/` is the verified library:

- `node`, `read` — a node reading, the readings made from a round of reads
  (successful or failed), and the error test that makes the loops reconnect.
- `json` — the JSON text of node values (integers, booleans, strings).
- `api` — the state behind the REST API: readings keyed by node id, the time
  of the last update and the last polling error; read-after-write laws.
- `display` — the style and value column of each line of the live display.
- `logger` — the CSV header and rows and the bytes appended per round.
- `session` — the decisions of the polling loops (connect, read, retry,
  reconnect, rows written).
- `browse`, `walk` — the depth-limited depth-first walk of the namespace,
  the tree it finds (children ordered by name, a later name replacing an
  earlier one) and the lines that print it.
- `nodeid` — the node a node-id text names, through the OPC-UA crate's
  parser, with the fallbacks: the null node for a read, the Objects folder
  for a browse.
- `text`, `clock`, `client` — character-level text operations, the wall
  clock, and the client settings.

`app/` is the program: the command line, OPC-UA sessions, the HTTP server,
terminal output and file I/O, calling the library for the decisions above.

The API state keeps its readings in a vector with no node id twice rather
than a `HashMap<String, _>`, and the browse tree keeps its children in a
vector sorted by name rather than `serde_json`'s map: with `String` keys,
vstd's specifications of std's maps let nothing about their contents be
proved, and the JSON map is an outside type that the logic reads.
