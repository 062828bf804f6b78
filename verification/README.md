# mydb

The verified core of a MySQL-compatible database, and the programs around it.

`src/` is a Verus library. Every function in it is proved against its contract:

- `text`, `search`, `num`, `codec`, `seqs`, `assoc`, `pairs`, `ids`, `order`, `error`: text, numbers
  and lists.
- `row`, `page`, `rowpages`, `disk`, `bufferpool`: rows, pages and the files that hold them.
- `schema`, `sqltext`, `checks`, `values`, `decimals`, `predicate`, `fkeys`: table definitions and
  what they ask of a row.
- `index`, `images`, `table`, `database`, `store`: tables and the changes to them.
- `commands`, `alter`, `altered`, `apply`, `validate`, `dmlcheck`, `altercheck`, `batch`,
  `referential`, `prepare`, `actor`, `staging`: write commands from a request to its reply.
- `wal`, `journal`, `replay`, `redo`, `recovery`: the log, and what a restart finds.
- `mvcc`, `manager`, `inventory`, `backup`: versions, statistics, storage and backups.
- `parser`, `script`, `config`, `security`, `router`, `agent`, `agentclient`, `metrics`, `cells`,
  `dump`, `migrate`, `bench`, `update`: the server's surroundings and the tools.

What an outside crate computes is called through a small function that Verus believes; the comment
above each says what is claimed of it.

`tests/` runs the library. `app/` holds the programs: arguments, files, sockets and threads.
