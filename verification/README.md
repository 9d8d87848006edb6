# forest

The request logic of a collaborative story service, verified with Verus.

- `src/` is the library: how tree, node, story and account requests are
  answered from the rows the database returned (`tree`, `flat`, `story`,
  `account`), and how errors are answered (`error`). Passwords go through
  bcrypt behind two trusted wrappers in `account`.
- `app/` is the web service around it: routes, database queries, cookies
  and the JSON copies of the library's types.
- `tests/` exercises the library on concrete values.
