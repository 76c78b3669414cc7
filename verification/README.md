# noide

The server behind a code editor in the browser: terminals that outlive a
connection, git, files, coding agents, and four small companions (a file
manager, port forwarding, saved HTTP requests and a vault of snippets).

`src/` is the library, proved with Verus. It decides and computes: which command
a request is, what a terminal retains and replays, how output is gathered into
frames, which runs of git a command takes and what their outputs mean, how a tree
is listed and searched, what becomes of a description in OpenAPI. It does no
input or output. Where a decision needs some, the library is a state machine that
hands out actions and takes back what happened.

`app/` is the program around it. It opens sockets, terminals, files, processes
and databases, performs the actions and hands back the events. It has one program
for each companion, picked by the name under which it is started.

| module          | what it holds                                             |
| --------------- | --------------------------------------------------------- |
| `pty`           | terminal sessions: ring, replay, streams, the manager     |
| `ws`            | requests, replies, frames, batching, tokens, connections  |
| `git`           | plans of runs, and what their outputs tell                |
| `files`         | trees, walks, search, archives, the file manager          |
| `chat`          | agents, attachments, turns                                |
| `agent_servers` | servers of agents, started once and used again            |
| `tunnel`        | providers of tunnels and their addresses                  |
| `requests`      | saved requests, export and import, OpenAPI                |
| `vault`         | snippets                                                  |
| `cli`, `pairing`| arguments, codes and QR codes                             |
| `path`          | paths and search paths, on Unix and on Windows            |

Laws that relate several functions are public proof functions beside the types
they speak of. Calls into other crates stand behind functions marked
`external_body`, each with a comment that says what is taken on trust.
