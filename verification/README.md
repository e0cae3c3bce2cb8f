# traework_assistant

The decision core of a desktop assistant for TraeWork: it pools accounts, checks them in every day,
and lets a local proxy serve the editor's charged requests from the pool.

`src/` is the library: functions over plain values that decide what a request means, which account
serves it, what is written into which file, what follows an answer. They are verified, on trust in
what a few small wrappers say of the calls they make: `chrono` (the clock, in `clock`), `regex` (in
`gate` and `checkin`), `serde_json` (in `json`), `base64` (in `checkin`), `sha2` (in `patch`), `uuid`
(in `accounts`), and of std `String::push`, the UTF-8 conversions and lower case (in `text`). The
contracts speak of mathematical models (`Seq<char>` for texts, `JsonV` for JSON values, `Map` for
tables). Laws that relate several functions are public proof functions named `law_*`.

| module | what it decides |
|---|---|
| `text`, `number`, `paths`, `json`, `table`, `clock` | texts, numbers, paths, JSON values, tables with times, the clock |
| `http` | requests and answers as bytes |
| `session`, `rules`, `routing`, `choosing` | conversations, which paths are swapped, which account serves |
| `proxy`, `realtime`, `gateway` | the local proxy, its WebSocket channel, the model gateway |
| `gate`, `gate_laws`, `patch` | opening and closing the URL gate of the editor |
| `endpoint`, `target`, `inject` | the endpoint override, the installed applications, the model selection |
| `accounts`, `checkin`, `refresh`, `scheduler` | accounts, the daily check-in, new tokens, the clockwork |
| `journal`, `commands` | what is noted, and what the user asks for |

`app/` is ordinary Rust around the library: files, processes, sockets, outgoing requests and the
desktop shell. `tests/` runs the library with the real crates it calls.
