# today

A command-line calendar of events: it lists what happened on a day (today by
default) from a set of configured event providers (text files, CSV files, SQLite
databases and web services), filtered by category or text, and adds events to
the providers that take them.

- `src/` is the library, verified with Verus: calendar dates as `chrono` handles
  them (`calendar`), text helpers (`text`), month-days, categories, rules such as
  `first monday in june` and events (`events`), event filters and their builder
  (`filters`), the configuration (`config`), and what the providers decide:
  their values, the records of a text file and of a CSV file, the request of a
  web provider, and the SQL and rows of an SQLite provider (`providers`).
- `app/` is the program around it: arguments, the configuration file, and the
  file, database and network I/O of each provider.
- `tests/` runs the library on concrete values.
