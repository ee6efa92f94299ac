# cashttpd

A web server for local development: it serves a directory over HTTP/1.1, HTTPS
and HTTP/3, with `.htaccess` and `.htpasswd` files, CGI and other scripts,
server-side includes, a proxy for the development servers of frameworks, and a
dashboard under `/server-info`.

## Layout

- `src/` is the library: all rules and all text that the server reads or writes,
  with contracts that Verus proves. It does no input or output. Where a decision
  depends on files, sockets or processes, the library asks for what it needs to
  know and takes the answer as a value.
  - `text`, `digits`, `paths`, `net`, `sorting`, `table`: the basics.
  - `configs`: settings, from the command line down to the built-in ones.
  - `servers`: requests, responses, and everything that stands between them.
  - `supports`, `platforms`, `uis`, `tasks`, `assets`: dates, logs, colors,
    signals, users, directories and the command line.
  - `outside`: each call into another crate, with what is relied on.
- `tests/` runs the library on given values.
- `app/` is the program: sockets, files, processes and threads around the
  library.

What holds of the library as a whole stands at the end of the modules under
"Laws": such as that what is handed out is written as a path below the served
directory, unless an index page is configured that starts at the root. Where a
`..` in the name of an index page leads is not part of that law.
