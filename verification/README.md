# mgfy

`mgfy` (short for magnify) is a command line tool for quick inspection of MongoDB:
list databases and collections, count documents, show an example document, and keep
named connections (one of them the default) in a connections file.

Layout:

- `src/` is the library, verified with Verus:
  - `connections.rs`: saved connections, looked up by name or as the default, and the
    rules for saving a new one (unique names, a single default), with the laws that
    relate saving and looking up;
  - `sizes.rs`: sizes in bytes written in B, KB, MB, GB, TB or PB with two decimals;
  - `numfmt.rs`: decimal notation of integers;
  - `commands.rs`: collection statistics, output lines, and filters written in JSON
    turned into BSON documents;
  - `cli.rs`: the commands, and which of them need a server;
  - `errors.rs`: connection errors and their messages.
- `app/` is the program: argument parsing, the connections file, the MongoDB server and
  the terminal.
- `tests/` exercises the library.
