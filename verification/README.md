# miniredis

A small Redis server whose behaviour is stated in contracts and proved by Verus.

- `src/` is the library: the wire format, the requests, what each command does to
  the database and answers, transactions and watched keys, and the messages of
  replication. The `*_laws` modules state what holds of several of them together.
- `app/` is the program around it: sockets, clocks and waiting.
- `tests/` runs the library on concrete values.

Time is an argument of every command that depends on it. A command that cannot be
carried out on its arguments, such as a push to a key that holds a text, is given
out as not defined, and the program decides what then happens.
