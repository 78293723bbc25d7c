# rz

Messaging between agents that run in terminals, behind HTTP services or in a
chat: a verified library, and the program around it.

Every message is one line, `@@RZ:<json>`:

```json
{"id":"a1b2","from":"lead","to":"worker","kind":{"kind":"chat","body":{"text":"do X"}},"ts":1774488000}
```

## Layout

`src/` is the library. Everything in it is verified.

| Module | What it holds |
|---|---|
| `protocol` | envelopes, and the line that carries one |
| `log` | finding messages in a scrollback, and showing them |
| `hub` | the hub of a session: `hub::registry` of agent panes, `hub::router` of requests |
| `registry` | the directory of agents |
| `resolve` | from a name to where its messages go |
| `nats_hub` | publishing to a hub, and what follows a message from it |
| `bridge` | HTTP services as agents |
| `telegram` | a chat as an agent |
| `pty` | an agent in a pseudo-terminal |
| `tmux`, `zellij`, `backend`, `command` | terminal multiplexers |
| `bootstrap` | what a new agent is told |
| `cli` | who sends, what is sent to whom, and what is shown |
| `json`, `text`, `bytes`, `pieces`, `number` | texts |

What the library takes from `serde_json` and from std without proof stands in
`json`, `protocol` and `text`, each item with what it claims.

`app/` is the program: arguments, processes, sockets and files. `tests/` runs
the library.
