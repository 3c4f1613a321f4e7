# cc_switch_tui

The logic of a terminal interface that manages providers and configuration
for several coding-assistant apps, written in Verus and verified.

- `src/` — the verified library:
  - `theme` — colour-mode detection from the terminal's environment and
    the 256-colour mapping of the palette;
  - `text`, `width` — character-level text helpers and display widths;
  - `shared`, `chrome`, `layout` — truncation, padding, key bars, insets and
    the height budgeting of the bordered sections;
  - `proxy_wave` — the braille activity wave;
  - `sessions` — session titles and the message window;
  - `json_lines`, `json` — locating keys in pretty-printed JSON, redacting
    credentials, highlighting the lines of the common config snippet;
  - `workspace` — the OpenClaw workspace and daily-note rules, listing and
    search;
  - `webdav` — the WebDAV quick setup, request coalescing and how a
    finished WebDAV request is handled;
  - `managed_auth`, `update` — the managed-account sign-in state and the
    self-update dialog, moved by the workers' answers;
  - `skills` — filtering the skills list and marking installed skills;
  - `provider_form` — the value column of the add-provider form;
  - `queues`, `channel` — the background workers' request queues and the
    custom-range usage runner.
- `app/` — the I/O around it: environment, filesystem, opener, serde and
  floating-point formatting.
- `tests/` — the test suite, run against the compiled library.
