# akasha

A framework for agents that talk to language models: a loop that alternates between a model
and its tools, extensions that watch and steer it, sessions that can be folded, forked and
kept, and a chat front end. The logic is written in Verus and proved against its contracts.

- `src/` is the library. Every function states what it returns; what relates several of them
  stands beside them as public proof functions named `law_...`.
- `app/` is the program around it: the command line, the network, the database, the chat
  service. It performs what the library asks for and hands back what came of it.
- `tests/` runs the library on concrete values.

## Modules

| Module | What it holds |
| --- | --- |
| `agent`, `builder` | the loop of an agent, step by step, and how one is put together |
| `extensions`, `combinator` | what the loop asks extensions, and how they are chained |
| `circuit_breaker`, `control`, `io`, `schema`, `telegram_bridge` | the extensions |
| `providers`, `routing`, `deepseek`, `sse` | responses, the choice of a model, one service |
| `session`, `forks`, `sqlite`, `mux_session` | sessions |
| `tools`, `mcp`, `skill`, `subagent`, `params` | tools, where they come from, and their schemas |
| `viewmodel`, `transcript`, `mux`, `telegram`, `cli` | the front end |
| `types`, `json`, `yaml`, `names`, `text`, `lines` | values and texts |

What the library takes from other crates goes through a few small functions in `json`, `yaml`,
`schema`, `mcp`, `sse`, `ids` and `text`. Their contracts are believed, not proved; each says
in its comment which function it calls and what it claims of it.

`takecell` is called nowhere here. `teloxide` needs it, and it is named only to hold the version
that `teloxide` is built with.
