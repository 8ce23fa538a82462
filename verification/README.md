# Salmon Watch

Salmon Watch sits in the tray and shows the incidents that Salmon servers report. It keeps one
WebSocket connection to each configured server, over an SSH tunnel where one is configured, and
announces changes as desktop notifications. Incidents can be snoozed.

The rules of the program are a library that is verified with [Verus](https://github.com/verus-lang/verus).
The program around it does the input and output.

## The library: `src/`

| Module | What it decides |
| --- | --- |
| `domain` | The state of the servers and their incidents, how events change it, and its laws |
| `network::client` | When a connection is made, read, given up and tried again |
| `network::tunnel` | How a tunnel process is started, watched and restarted |
| `network::protocol` | Which messages of a server are accepted |
| `notification` | Which connection failures last long enough to be announced |
| `runtime` | What is logged, and how snoozes are written before they take effect |
| `persistence` | What the state file holds and keeps |
| `config`, `address` | Which configurations are usable |
| `ui::projection` | What the window shows of a state |
| `tray` | The icons of the tray and when they flash |
| `settings`, `window_geometry`, `app` | The settings window, the place of the window, the actions of the user |
| `setup`, `autostart` | The files that are installed, and their contents |
| `bearer_token` | Tokens and their digests |
| `cli`, `logging`, `build_info` | Commands, levels and versions |
| `table`, `text`, `timestamp` | Ordered tables, texts and instants |

Contracts speak of models: a text is the sequence of its characters, an instant a number of
nanoseconds since the start of 1970, a table a map. Calls into other crates stand behind small
functions whose contracts are believed; the comment above each says what is claimed of the call.

## The program: `app/`

Arguments, files, sockets, processes, threads and the terminal that stands for a window. It asks
the library what to do, does it, and reports back what happened.

## The tests: `tests/`

They run the compiled library on concrete values, with the real crates behind it.
