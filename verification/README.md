# argus

Argus observes the behaviour of a Windows process with Frida: it spawns or
attaches to the target, injects a JavaScript runtime with rule scripts, and
prints the events the scripts report on the console or as JSONL.

`src/` is the library, verified with Verus:

- `cli` — targets, presets, modules, output modes; exactly one target.
- `event` — the `argus.frida.v1` event types.
- `console`, `jsonl` — the two renderings of an event.
- `receive` — where each rendered line goes (console, save file).
- `message` — which script messages carry an event.
- `paths` — path order, `.js` selection, sorting, `/`-separated path text.
- `load` — the script bundle: runtime first, then the rule groups in order.
- `runner` — splitting `--exec`, the Python helper's arguments and the
  choice of an interpreter.
- `text` — white space, words, joining, decimal numbers.

`app/` is the program around it: clap, tokio, the Frida session, the Python
helper process and all file and console I/O.
