# TabletFlow

A desktop front end for the OpenTabletDriver daemon: it starts the daemon, looks for the tablet,
shows the active area, and applies a new one once the daemon confirms it.

`src/` is the library: every rule of the application, with contracts that Verus proves. It does
no input or output. What alternates between deciding and doing is a machine that says what to do
next and is told how it went.

| Module | What it holds |
|---|---|
| `supervisor` | the loop that keeps a connection, queries the tablet and applies areas |
| `watch`, `recovery` | a loop that takes any driver that runs, and gives up after some starts |
| `state` | when to connect, to start the daemon and to look for a tablet |
| `query`, `profile` | what the replies of the daemon say of a tablet |
| `apply`, `validation` | checking an area, editing the settings, confirming them |
| `rpc` | frames, requests, responses and their deadlines |
| `json`, `readings` | JSON documents, and what texts read as |
| `binary`, `decimal` | IEEE 754 numbers as bit patterns, and their decimal text |
| `display` | where the displays are, and which one an area covers |
| `settings` | the settings file |
| `platform`, `daemon`, `autostart` | paths, packages, self-tests and autostart of each system |
| `ui` | what follows what the user does |
| `models`, `text`, `time` | plain data, strings and the clock |

Floating-point numbers are held as their bits. Reading a decimal text as such a number is left to
the caller, who hands the library a list of readings.

`app/` is the program around it: windows, processes, pipes, files and threads. It needs one of
Slint's backends to be enabled to show its window.

`tests/` runs the library on concrete values.
