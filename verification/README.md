# kvs

A Bitcask-style log-structured key/value store, verified with Verus.

Writes append records to an active log file that rolls over at a size
threshold; sealed files are immutable. An in-memory index maps each key to
`(file_id, offset, len, ts)` of its latest record, so a read is a single
positioned read. A background merge reclaims stale data from sealed files. Each
merge output gets a `*.hint` sibling, from which the index can be loaded without
replaying the log.

Record format (little-endian):

    [u32 crc][u32 body_len][u64 ts][u8 type][u32 key_len][key][u32 value_len][value]

## Layout

- `src/` is the library. It holds the formats, the index, the replay, the
  merge, the wire protocol and the prompt, as functions with proved contracts.
  It performs no input or output: callers hand it bytes and carry out what it
  decides.
  - `command`, `index_value`, `record_reader`: records, hints, and files made of
    them
  - `index`, `loader`, `bitcask`, `merge`: where keys stand, how that is rebuilt
    from files, what writes change, and how sealed files are merged
  - `log_model`, `recovery`, `merge_model`, `store_model`: what the files of a
    store mean, and the laws of single steps: what was written is read back,
    opening a store again gives the same contents, a merge changes nothing of
    them, and a crash at any of its steps loses nothing
  - `merge_run`, `history`: what a whole merge comes to, and what a read returns
    behind any sequence of sets, removals, rotations, merges, completed or
    given up, and reopens
  - `network`, `repl_helper`, `file_name`, `lock_file`, `sled_store`: the rest
    of the rules
- `app/` is the programs: files, locks, threads and sockets around the library.
  Started as `kvs` it is a prompt over a local store, as `kvs-server` a server,
  as `kvs-client` a prompt that talks to a server.
- `tests/` runs the library, the store on files kept in memory.

## What is not proved

That `crc32fast::hash` computes CRC-32 (IEEE), and that the standard library
reads bytes as UTF-8, is taken from their documentation. That a write reaches
the disk, and in which order, is in the hands of the operating system.
