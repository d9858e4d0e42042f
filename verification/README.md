# myssh

Runs a command on many SSH servers at once, logging in through scripted
prompts and, where asked, through a jump host; or reads commands
interactively. The library under `src/` is written in Verus and verified;
`app/` is the command-line program around it.

## Layout

- `src/config.rs`: the configuration types, defaults, and how a node's login
  script is built (own script, or the defaults plus appended steps, with the
  `{{password}}` placeholder replaced).
- `src/plan.rs`: which nodes a command runs on and with which host, port,
  user, password, scripts and jump host.
- `src/wait.rs`: when a wait pattern (`|`-separated alternatives) has
  appeared in received output.
- `src/frame.rs`: the line that runs a command remotely (base64-encoded,
  between `MY_begin` and `MY_end` markers).
- `src/line_buffer.rs`: streamed output handed out line by line.
- `src/session.rs`: one node's session as a state machine: each event
  (authentication answered, text received, channel closed, timeout, Ctrl+C)
  gives the next state and what to do; `src/session_laws.rs` proves how
  every run behaves.
- `src/interactive.rs`, `src/special.rs`: reading typed lines, the prompt,
  target nodes, and the `!!` special commands.
- `src/text.rs`, `src/pieces.rs`: the text operations everything is built on.
- `app/`: command-line parsing, the YAML file, SSH connections, timers,
  signals and printing.

The configuration file format is the one of `config.yaml` described for the
program: `defaults`, `jump` and `nodes`.
