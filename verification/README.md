# Milk Parlor

A small gateway between applications and model providers. It accepts an
operator's key, forwards supported OpenAI requests without changing their
bodies, streams the provider's response back, and captures complete exchanges
in an object store.

`src/` is the library: the rules of the gateway, each with a contract that Verus
proves. What other crates do is relied on as `boundary` says.

| Module | What it holds |
| --- | --- |
| `text`, `json`, `digest` | Texts, digits, JSON objects and digests |
| `identity`, `layout` | UUIDs, names, and the keys of stored objects |
| `config`, `upstream`, `keys` | Settings, providers and operator keys |
| `headers` | Which headers pass, and what is read from them |
| `document`, `route`, `routing` | Signed routes and the choice of an upstream |
| `exchange`, `recorder`, `capture` | One exchange from its admission to its capture |
| `reply` | The replies that the gateway gives itself |
| `store`, `signing` | The object store and its signed requests |
| `boundary` | Calls into other crates, and what is relied on |

`app/` is the program around it: sockets, files, clocks for timeouts, and the
JSON that is read from outside. `tests/` run the library on concrete values.
