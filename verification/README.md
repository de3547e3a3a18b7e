# pliny

Terraform plan comprehension TUI with AI-native risk summaries, around a core
that is verified with Verus.

Named after [Pliny the Elder](https://en.wikipedia.org/wiki/Pliny_the_Elder),
who died observing Vesuvius erupt. Fitting patron for a tool that watches
infrastructure from a safe distance.

## What it does

`terraform plan -out=plan.out && terraform show -json plan.out > plan.json`
produces a dense JSON document that humans do not read. `pliny` opens it in
a TUI, groups changes by resource type and action, and asks an LLM to
summarize the plan with an explicit callout for risky changes.

```
pliny plan.json                 # with AI summary, needs OPENAI_API_KEY
pliny --no-ai plan.json         # disable LLM
pliny --model gpt-4o plan.json  # override default model
pliny --show-noops plan.json    # include no-op changes in the tree
```

| Key        | Action                   |
| ---------- | ------------------------ |
| `j` / `↓`  | down                     |
| `k` / `↑`  | up                       |
| `l` / `→`  | expand                   |
| `h` / `←`  | collapse                 |
| `:`        | run a terraform command  |
| `?`        | toggle help              |
| `q` / `Esc`| quit                     |

`:apply` without a saved plan makes the plan first and shows it; `y` applies
exactly that plan, `n` does not.

## Sensitive values

Attributes flagged `before_sensitive` / `after_sensitive` and everything
under `after_unknown` are replaced with `<sensitive>` before anything is
sent to the LLM. This is non-negotiable. That what is sent depends on no masked value is proved:
`masking::digests_disclose_no_masked_value`.

## Layout

- `src/` is the library, every item of it verified.
  - `text`, `sequences`: strings and sequences, the vocabulary of the contracts
  - `json`, `plan`, `groups`: plan documents, their actions, their grouping
  - `digest`, `masking`: the text for the LLM, and what it cannot disclose
  - `llm`: what is asked, and what is shown for each way the call can end
  - `shell`, `runner`, `workspace`: commands, the steps of a run, workspaces
  - `tree`, `ui`, `screen`: rows, the state of the screen, its texts
  - `cli`, `fixture`: arguments, synthetic plans for load testing
- `app/` is the program around it: terminal, subprocesses, HTTP, serde. Started
  under the name `gen-mega-fixture`, it writes a synthetic plan.
- `tests/` run the library.

What the proofs rest on besides Verus: the items in `src/text.rs` that state
what functions of the standard library do, and `json::open_value`, which takes a
`serde_json::Value` apart.
