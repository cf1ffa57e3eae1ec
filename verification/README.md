# elfredo

Data embedded in an executable's `.extended` section, replaceable after the
executable was built (with `objcopy --update-section`).

The section holds an entry: a 16-byte header (magic `DE AD BE EF`, a little-endian
CRC-32 of the size field and the data, the little-endian size of the data) followed
by the data.

- `src/` is the verified library:
  - `data_entry.rs` generates and reads entries. It also holds the laws of the format:
    reading back a generated entry gives its data, and a changed magic, a changed
    checksum or any single changed byte is detected.
  - `checksum.rs` specifies CRC-32 (IEEE) and proves that it detects every
    single-byte change.
  - `binpatch.rs` builds objcopy's arguments.
  - `lib.rs` reads the data from a section's bytes.
- `app/` holds what touches the outside world: the `.extended` static of the running
  executable, running objcopy, the command-line tools, and serde on the embedded values.
- `tests/` runs the library on concrete entries.
