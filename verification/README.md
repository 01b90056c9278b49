# mdf4_rs

Bus logging to ASAM MDF 4 files and indexed reading of them, written in Verus: each
function of the library states what it does in `requires`/`ensures` contracts over
mathematical models (`Seq` and the views of the data types), and Verus proves it.

## Layout

- `src/` — the verified library.
  - `writer.rs`: the bus-logging MDF writer (ID, HD, DG, CG, CN, CC, TX and DT
    blocks), with the exact bytes of the file it writes as a spec function.
  - `can/`, `ethernet/`, `lin/`, `flexray/`: frame types and their byte layouts,
    and the raw loggers that group frames into channel groups.
  - `index.rs`, `scan.rs`, `reader.rs`: an index of an MDF file (its channel
    groups, channels and data blocks) read through a byte-range reader, with the
    index that a file's bytes give as a spec function.
  - `values.rs`, `channel_values.rs`: decoding record values and reading a
    channel's values through the index.
  - `log_index.rs`, `can/read_back.rs`: the laws tying writing and reading
    together: indexing a written file gives back its groups, reading its channels
    gives back its records, and loading a CAN log gives back its frames.
  - `merge.rs`: reading the groups of a file with their values, and merging the
    groups of two files by record layout.
- `tests/` — tests of the library on concrete values.
- `app/` — what the library leaves to ordinary Rust: files, buffered and file
  readers, JSON persistence of an index, and adapters for `embedded_can` frames.

## Checking

The library is checked with Verus; the tests run against the compiled library with
the real outside crates (`embedded-can`, `serde`, `serde_json`).

## What is not here

- Reading files through a general MDF object model (`MDF`, `ChannelGroup`,
  `Channel`, value iterators), the general `MdfWriter`, and channel conversions:
  conversions compute floating-point values, which the library does not hold.
- Cutting a file by time (`cut_mdf_by_time`): its time window is floating point.
- Logging decoded signals with a DBC database (`CanDbcLogger` and its helpers): it
  needs the `dbc-rs` crate and floating-point signal scaling.
- Writing a merged file: the groups of two files are merged (`merge::merge_groups`),
  but there is no general writer to write them out.
- Timestamps: the loggers store a `Timestamp` channel of unsigned microseconds with a
  linear conversion to seconds, not floating-point seconds; loading a CAN log takes
  unsigned-integer timestamps only.
- An unknown block in a data block chain ends the chain, as the streaming index does.
- File loggers (`app/`) write their file whole when finalized, rather than as they
  flush; the library's writers give the bytes of the finished file.
