# EpochOxide

A data provider for desktop shells. One daemon answers a launcher (applications, files, commands,
clipboard, windows, calculations and menus of one's own) and offers a versioned API for what is no
launcher result: the compositor, screen capture, LocalSend, Tailscale, flake updates, power, the
machine and its firmware.

The library under `src/` holds the logic, written in Rust and proved with Verus. Each function says
in its contract what it returns for every input, and the laws that span functions stand beside them
as public proof functions. `app/` is the program around it: sockets, TLS, files, processes, threads
and the command line.

## The library

| Module | What it decides |
| --- | --- |
| `text`, `number`, `amount`, `order`, `bytes`, `path`, `keyed`, `json` | Texts, numbers and what they are worth, sorting, bytes, paths, maps from text, JSON values |
| `config` | The settings: defaults, what a file overrides, expanded paths |
| `fuzzy`, `history`, `types` | Matching and scores, what use adds to a score, what providers give back |
| `providers` | The providers, and the registry that routes a query and merges their results |
| `compositor` | Windows, workspaces and monitors in one shape for Hyprland, niri, sway and X11 |
| `capture` | What a screenshot is of and where it goes, the text that is read off one, and recordings |
| `localsend` | Discovery, sending and receiving, certificates and pinned fingerprints |
| `nix`, `tailscale`, `hardware`, `power`, `awake`, `night`, `wallpaper`, `icons` | The state of the machine and what can be done about it |
| `api` | The contract of the API, and what a call comes to |
| `server`, `client`, `service`, `terminal`, `notify` | The protocol of the socket, the service unit, commands in a terminal, notifications |

Reading JSON and TOML, and anything that works on floating point, is left to the program: the
library takes parsed values (`json::Value`, `config::PartialConfig`) and gives values back.

## What is trusted

A few functions of other crates and of the standard library are called through wrappers whose
contracts are believed: SHA-256 and random bytes from `ring`, keys and certificates from `rcgen`, the
expansion of a tilde by `shellexpand`, and from the standard library `String::push`, lower case, lossy
UTF-8 and the test for letters and digits. Each wrapper says above it what is claimed.
