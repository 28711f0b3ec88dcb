# support_portal

The core of the support portal, with its behaviour proved: the customer support API server
(`support-api`) and its command line client (`support-cli`).

- `src/` is the library, each function with a contract and a proof:
  - `command_tree`: the CLI's command table, the splitting of a path into
    words, and the subcommand tree built from the table, with the laws that
    an insert reads back and that a tree built from fitting entries holds
    each entry.
  - `command_table`: the words of the command paths, by number, and the
    proofs that the CLI's tree is built without refusal and holds every
    command at its path, and that no command's path begins another's.
  - `login`: login providers, the provider settings the login flow reads,
    the tokens it keeps, and the API client's settings: its `Authorization`
    header (`Bearer ` and the token, marked sensitive, and the `http` header
    value holding exactly those bytes and that mark) and its timeouts.
  - `server`: the server's command line, listening settings, added
    permissions and OpenAPI description.
  - `initial_data`: the sources initial data is layered from (optional
    files, then the environment), the ordered plan of store operations that
    installs it (taking one fresh id for each new group and mapper), and the
    run that performs them step by step: a record that exists already is
    skipped, the first other failure stops the run, and a second run of the
    same data keeps each group's id and ends done.
  - `outside`: the calls into `uuid` and `http`, with their contracts.
- `tests/` runs the library on concrete values.
- `app/` holds both programs in one binary, which acts as `support-api` or
  `support-cli` by the name it is run under: I/O, the HTTP server and
  client, the async runtime and the command line parsing.
