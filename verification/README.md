# shlack

A terminal Slack client whose core is verified with Verus.

- `src/` is the library: message formatting (mrkdwn, emoji shortcodes,
  links and mentions), the interpretation of Slack Web API and Socket Mode
  payloads, the compose box editor, the sidebar and pane state, the
  download decisions and the layout computations. Every function there
  carries a contract that Verus proves; the few calls into `chrono`,
  `emojis`, `unicode-width` and std that it cannot read are trusted items
  with their contracts stated beside them.
- `app/` is the program around it: the terminal loop, drawing with
  `ratatui`, the HTTP and websocket I/O with `reqwest` and
  `tokio-tungstenite`, and the serde copies of the library's payload types.
- `tests/` runs the library on concrete inputs.

The client reads `SLACK_TOKEN`, `SLACK_APP_TOKEN` and, optionally,
`SLACK_WORKSPACE` from the environment.
