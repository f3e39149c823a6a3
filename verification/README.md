# shell

The verified core of a Wayland desktop shell for Hyprland: a top bar with
workspace buttons, an application launcher and a notification daemon.

`src/` is the library, written in Verus; every function in it carries a
contract that Verus proves, except the few marked `external_body` that call
the YAML parser, the fuzzy matcher, `serde_json` and the standard library:
their contracts are assumed, and say what those crates document. `app/` is ordinary Rust around it: the programs'
`main`, the Wayland and GPU plumbing, the sockets and files, and the egui
drawing. It hands the library plain values and performs what the library
answers.

Library modules:

- `yaml`, `document`, `extend`: reading a YAML config file's block mappings
  and splicing the keys it lacks into its text, copied from the defaults.
- `config`: where each component's file lives.
- `hypr`: Hyprland's IPC requests, dispatch replies and event lines.
- `workspaces`: the bar's row of workspace buttons.
- `entries`, `launcher`: ranking desktop entries against a query, which
  entries a menu offers, the launcher's highlight and command lines.
- `notification`: the notification queue and its expiry.
- `surface`, `gpu`, `input`: when a layer surface is mapped and drawn, the
  swapchain's choices, and how keyboard and pointer events read.
- `appearance`, `option`: colors and metrics read from Hyprland's options, and
  `getoption` replies.
- `text`, `sort`: text and sorting helpers the above share.

Run the programs as `shell bar`, `shell launcher` or `shell notification`.
