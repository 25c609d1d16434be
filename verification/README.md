# wyd

What are your agents doing? `wyd` looks at the processes, ports and containers
that coding agents leave on a machine, says which agent session owns each of
them, and runs commands under a local supervisor that bounds their time,
memory, output and cleanup.

## Layout

- `src/` is the library: the rules of the program, each with a contract that
  Verus proves.
  - `model/`, `time`, `stamp`, `text`, `bytes`, `path`, `sorting`: the values
    and how they are written and read.
  - `classify/`: the process forest, signatures, grouping, projects, leftovers
    and the ownership of resources by sessions.
  - `platform/`: boot identity, process groups, control groups.
  - `runner/`: one run, its worker as a state machine, the scheduler, the
    supervisor, retained output, repeated requests, starting the supervisor.
  - `server`, `replies`, `mcp`, `json`, `written`: the two JSON interfaces.
  - `barman/`, `output`, `cli`, `why`, `ports`, `source`, `scanner/`, `demo/`,
    `actions/`, `config`: what is shown and what a user can do about it.
- `app/` is the program around the library: arguments, files, sockets, signals,
  threads, the Docker client and the serde copies of the library's types. Its
  state file keeps what was recorded: runs, sessions and aliases, and when the
  latter two were last seen or ended.
- `tests/` runs the library on concrete values.

## Agents

The built-in table of `classify/rules` does not name every coding agent. One
that is missing is added in the configuration, and is then an agent like the
others; `a_signature_adds_an_agent` states so:

```toml
[[signature]]
category = "agent"
names = ["myagent"]
display = "myagent"
```

## What is trusted

A few small functions are believed without proof: the wrappers around
`blake3`, `getrandom` and `serde_json` in `digest`, `random`, `json` and
`written`, and those around the standard library's string functions in `text`
and `runner/logs`. The comment above each says what is claimed of it.
