# lazar

A small agent harness. The model gets one tool, `execute(command)`, which runs bash in a sandbox;
everything else is skills and hooks, files under the home directory.

- `src/` is the library: the rules of the harness, each function with a contract that Verus proves.
  It reads no file, starts no process and sends no request.
- `app/` is the program around it: arguments, files, processes and requests. It carries the skills
  and hooks that a reset writes out, and the sandbox profile.
- `tests/` runs the library on concrete values.

| module | what it holds |
|---|---|
| `text`, `numbers`, `offsets` | searching and cutting text, decimals, byte offsets of characters |
| `json` | JSON values, and reading and writing them with `serde_json` |
| `fabrication` | phrases in an answer that suggest work that was not done |
| `claims`, `paths` | `[VERIFY]` blocks, and judging their claims |
| `hooks` | which hooks run, what they are told, what their replies mean |
| `tools`, `sandbox` | limits and output of commands, and the command line and environment of the sandbox |
| `session` | session logs, and the conversation read back from one |
| `indexed`, `sse` | the event stream of an answer |
| `logs`, `home` | the log, its rotation, and resetting the home directory |
| `prompt`, `agent`, `invocation` | requests, the turns of the agent, and the start and end of a run |

The program takes its model from `--model`, `LAZAR_MODEL`, or `LAZAR_DEFAULT_MODEL` at build time.
