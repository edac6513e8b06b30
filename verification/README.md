# zippity

Makes ZIP archives on the fly. The size of the archive is known before anything
is read, entries are only read when their part of the archive is, and reading
can start at any position, so that a web server can answer range requests and
resume downloads.

- `src/` is the library. It is verified with Verus: contracts say which bytes
  an archive consists of, what each read returns and what a seek leaves behind.
  - `layout` says what an archive is, byte by byte; `structs` and `encode` are
    its records.
  - `entry_data`, `crc_reader` and `reader_entry` are where contents come from.
  - `builder`, `names`, `time` and `filesystem_entry` collect entries with
    their metadata.
  - `chunk`, `read_state`, `reading`, `reader` and `collect` read an archive.
  - `byte_stream` and `responder` hand archives to web servers.
  - `laws` holds what is true of the library as a whole.
- `app/` connects the library with tokio, actix-web, the filesystem and
  proptest.
- `tests/` runs the library, also against the `zip` crate.

What contracts say about the bytes of an archive holds for data that is *exact*:
its readers give just its content, though that may have to be waited for, and
reading may fail. Data in memory is exact, and *prompt*, too: it never has to be
waited for and cannot fail.

Of all data it holds that the bytes which were read are counted: an archive that
is read from the start to the end without an error has the size that was told in
advance, and the checksums of all entries are known then. Exact data that has
not the size which it reports ends in an error. A read waits, or fails, only where
data is needed: within it, and for a checksum that is not known. What is open is
kept while it is waited for.
