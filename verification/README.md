# cthulhu

The protocol core of a Bitcoin testnet P2P observer, verified with Verus.

`src/` is the library. Every function there carries a contract stated over
plain mathematical values (`Seq`, `nat`, views of the data types):

- `encoding` — little-endian integers, varints, varstrs, `net_addr`
- `message` — the 24-byte header and message framing
- `parser` — which headers and payloads the reader accepts
- `transaction` — decoding of legacy and SegWit `tx` payloads, with the layout
  written out as bytes and proved to read back
- `version` — the `version` payload we send and the description of a peer's
- `inventory` — `inv` payloads: mempool snapshots and announcements
- `node` — connection state and what each received message leads to
- `session` — what the loop does around the messages: our `version` first,
  stopping when asked, a keepalive `ping` on a read timeout, and a reported
  disconnection on any other failed read
- `command` — connect, disconnect, transaction and mempool requests
- `network` — merging the addresses the DNS seeds return
- `crypto`, `text` — double SHA-256 (through `sha2`), hex and decimal rendering

`app/` is the desktop shell: sockets, DNS, the background thread and the
Tauri bridge to the user interface. `tests/` runs the library on concrete values.

## Notes on the design

The addresses returned by the DNS seeds are merged without duplicates into a
`Vec<String>` by a linear search (`network::unique_peers`), and
`network::lemma_merge_unique` proves that no address appears twice. A
`HashSet<String>` is not used: vstd's specifications of `HashSet` hold only
for key types that satisfy `obeys_key_model`, which vstd grants to integers
and `bool` but not to `String`. Granting it would take an unproved
assumption, and without it no contract about the set's contents can be
proved.
