# easy_rpc

The transpiler of easy-rpc: it reads `.erpc` files, which define the endpoints
of the roles of a project (a server, a browser, ...) and the custom types they
exchange, and generates TypeScript classes and clients from them.

The library under `src/` is verified with Verus:

- `input_reader`: a reader over UTF-8 input, line by line, with positions;
- `lexer`: the tokens of a source and the lexers that produce them;
- `parser`: custom types, endpoints and their field types;
- `validator`: the logical checks of a parsed source (roles, types, duplicates);
- `generator`: the TypeScript text of interfaces, classes and clients, and the
  generation for a whole tree of sources (`generator::project`).

Each function states what it computes over a mathematical model (`Seq`, views of
the data types), and the laws that relate several functions are proof functions
named `law_*`.

`app/` is the part that touches the file system: it reads `roles.json`, the
middleware definitions and the source tree, calls the library and writes the
generated files.
