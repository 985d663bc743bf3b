# ai

A command-line tool that turns a natural-language description into a shell
command with the help of a language model. The command is printed and copied to
the clipboard.

```
$ ai list all open ports on this machine
ss -tulnp
```

`src/` is the library, verified with [Verus](https://github.com/verus-lang/verus):

| Module | What it holds |
|--------|---------------|
| `text` | White space, prefixes, lines and decimal numbers |
| `command` | The command in a reply, without the Markdown around it |
| `config` | Configuration files, environment and defaults, layered by priority |
| `paths` | The install prefix and the search path for configuration files |
| `chat` | The request to the model, and what its reply means |
| `clipboard` | The native clipboard and the tools that stand in for it |
| `stderr` | Silencing the standard error stream for a while |
| `session` | What a run prints and does, step by step |

`app/` is the program around it: arguments, files, the environment, the network,
the clipboard and the terminal. `tests/` runs the library.

## Configuration

Later sources override earlier ones: `/etc/ai/config.toml`,
`<install prefix>/etc/ai/config.toml`, the user's `ai/config.toml`, the file given
with `--config FILE`, and the environment variables `AI_API_KEY`, `AI_BASE_URL`
and `AI_MODEL`. `ai --config`, or `ai --print-config`, shows the values in force.
