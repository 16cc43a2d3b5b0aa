# dxclrecorder

A recorder for spots published by DX cluster servers. It connects to several
cluster servers in parallel, parses every received spot, filters it, and
writes it as JSON to the console and to a daily rotated file.

The library under `src/` holds the recorder's logic, each function with its
contract:

- `configuration`: the configuration read from `dxclrecorder.json`.
- `connection`: connection strings `call@host:port` and the retry budget of a
  connecting listener.
- `spot`: the kind of a parsed spot, the type and band filters, and where a
  kept spot is written.
- `filerotate`: daily rotation of the output file: the date stamp in the file
  name, when a new file is started, and which file is compressed.
- `recorder`: the listeners to start, the supervising loop's decisions, and the
  logging setup.
- `text`: decimal numbers, strings as character vectors, and placeholder
  substitution.

`app/` is the program around it: command line, reading the configuration file,
logging, network listeners, file and compression I/O, and the asynchronous
tasks that tie them together.
