# hop

One keyboard and mouse for a Mac and a Windows PC. The Mac captures input;
once the cursor crosses a configured edge of its screen, everything goes to
the PC, until the cursor comes back over the PC's facing edge or the escape
keys are pressed. Copied text and single files cross too.

The library under `src/` holds the protocol, the rules and the state
machines. All of it is verified with [Verus](https://github.com/verus-lang/verus):
every function is proved to meet its contract, and the promises that span
several functions are proved as laws, the functions named `law_...`.

## Layout

| Module | What it holds |
| --- | --- |
| `keys`, `keymap`, `remap`, `macos::keymap`, `windows::keymap` | keys, their names, and their codes on each system |
| `message`, `wire` | what is sent, and its bytes |
| `crypto`, `replay`, `transport` | sealed frames, replay protection, framing |
| `handshake` | agreeing on a session |
| `control`, `held`, `hotkey`, `session`, `server` | where input goes, on the side that captures it |
| `supervisor`, `backoff`, `liveness`, `link`, `time` | keeping a connection, on the side that dials |
| `screen`, `macos::cursor`, `windows::return_edge` | monitors, edges, and where a crossing lands |
| `macos::capture` | what becomes of an event that the Mac is about to see |
| `windows::inject` | the records that replay input on the PC |
| `clipboard`, `filetransfer`, `windows::clipboard` | copied text and files |
| `config`, `settings`, `keyfile`, `run` | the configuration, the key, and what is run with them |
| `update`, `replace`, `json` | updating in place |
| `gui`, `windows::tray`, `windows::http`, `windows::autostart` | what the windows and menus decide |
| `device`, `warp`, `text` | the rest |

`app/` is the program around the library: the command line, files, sockets,
the clock, floating point numbers, and the calls into macOS and Windows. It
is ordinary Rust.

`tests/` runs the library on concrete values.

## What is trusted

The library calls six outside crates, each through small functions whose
contracts say what is relied on: `postcard` (`wire`), `chacha20poly1305` and
`getrandom` (`crypto`), `sha2` (`handshake`), `serde_json` (`json`) and
`base64` (`keyfile`). Two functions of the standard library are relied on in
the same way (`update`, `filetransfer`).

## Numbers

The library does not use floating point. Coordinates are counted in steps of
1/256 of a unit, fractions and factors in parts of 2^32, and a number of a
message or a file is carried as its bit pattern.
